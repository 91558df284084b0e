//! The interactive confirmation flow, as pure decisions: scanning the
//! invocation arguments for an assume-yes flag, judging the confirmation
//! line, choosing the formatting target, and driving the provisioning run
//! from the observed environment.

use vstd::prelude::*;
use crate::install::{Assets, Event, apply_plan, copy_files, events_view, plan_events, spec_plan};
use crate::strutil::str_eq;
use crate::vfs::FileSystem;

verus! {

/// The process exit taxonomy shared across the tool family.
#[derive(Debug, Clone, Copy, PartialEq, Eq, Structural)]
pub enum ExitCode {
    Success,
    Failure,
    UsageError,
    DataError,
}

impl ExitCode {
    /// The numeric process status of this outcome.
    pub fn code(&self) -> (c: u8)
        ensures
            c == match *self {
                ExitCode::Success => 0u8,
                ExitCode::Failure => 1u8,
                ExitCode::UsageError => 64u8,
                ExitCode::DataError => 65u8,
            },
    {
        match self {
            ExitCode::Success => 0,
            ExitCode::Failure => 1,
            ExitCode::UsageError => 64,
            ExitCode::DataError => 65,
        }
    }
}

/// ASCII whitespace, as a console line read can carry at its end.
pub open spec fn is_ws(c: char) -> bool {
    c == ' ' || c == '\t' || c == '\r' || c == '\n'
}

/// `s` with every trailing whitespace character removed.
pub open spec fn spec_trim_end(s: Seq<char>) -> Seq<char>
    decreases s.len(),
{
    if s.len() == 0 {
        s
    } else if is_ws(s.last()) {
        spec_trim_end(s.drop_last())
    } else {
        s
    }
}

proof fn lemma_trim_end_take(s: Seq<char>, k: int)
    requires
        0 <= k <= s.len(),
        forall|j: int| k <= j < s.len() ==> is_ws(s[j]),
        k > 0 ==> !is_ws(s[k - 1]),
    ensures
        spec_trim_end(s) == s.take(k),
    decreases s.len(),
{
    if s.len() == k {
        assert(s.take(k) =~= s);
        if k > 0 {
            assert(!is_ws(s.last()));
        }
    } else {
        assert(is_ws(s.last()));
        assert forall|j: int| k <= j < s.drop_last().len() implies is_ws(s.drop_last()[j]) by {
            assert(s.drop_last()[j] == s[j]);
        }
        lemma_trim_end_take(s.drop_last(), k);
        assert(s.drop_last().take(k) =~= s.take(k));
    }
}

/// Whether the character of `line` at `i` is whitespace.
fn ws_at(line: &str, i: usize) -> (r: bool)
    requires
        i < line@.len(),
    ensures
        r == is_ws(line@[i as int]),
{
    let c = line.get_char(i);
    c == ' ' || c == '\t' || c == '\r' || c == '\n'
}

/// The character count left when `line` loses its trailing whitespace.
fn trimmed_len(line: &str) -> (k: usize)
    ensures
        k <= line@.len(),
        spec_trim_end(line@) == line@.take(k as int),
{
    let n = line.unicode_len();
    let mut k: usize = n;
    while k > 0 && ws_at(line, k - 1)
        invariant
            k <= n,
            n == line@.len(),
            forall|j: int| k <= j < n ==> is_ws(line@[j]),
        decreases k,
    {
        k = k - 1;
    }
    proof {
        lemma_trim_end_take(line@, k as int);
    }
    k
}

/// True when the argument list carries an assume-yes flag, `-y` or `--yes`.
pub open spec fn spec_has_yes(args: Seq<String>) -> bool {
    exists|i: int| 0 <= i < args.len() && (#[trigger] args[i]@ == "-y"@ || args[i]@ == "--yes"@)
}

/// Scans the invocation arguments for an assume-yes flag.
pub fn has_assume_yes(args: &Vec<String>) -> (r: bool)
    ensures
        r == spec_has_yes(args@),
{
    let n = args.len();
    let mut i: usize = 0;
    while i < n
        invariant
            n == args@.len(),
            i <= n,
            forall|k: int| 0 <= k < i ==> !(#[trigger] args@[k]@ == "-y"@ || args@[k]@ == "--yes"@),
        decreases n - i,
    {
        if str_eq(args[i].as_str(), "-y") || str_eq(args[i].as_str(), "--yes") {
            return true;
        }
        i = i + 1;
    }
    false
}

/// True when the line read at the confirmation prompt confirms: after
/// trailing whitespace is dropped, exactly the letter `y` remains.  Any
/// other answer declines.
pub open spec fn spec_confirms(line: Seq<char>) -> bool {
    spec_trim_end(line) == seq!['y']
}

/// Judges the confirmation line.
pub fn confirms(line: &str) -> (r: bool)
    ensures
        r == spec_confirms(line@),
{
    let k = trimmed_len(line);
    if k == 1 {
        let c = line.get_char(0);
        proof {
            assert(line@.take(1)[0] == line@[0]);
            assert(seq!['y'][0] == 'y');
            if line@[0] == 'y' {
                assert(line@.take(1) =~= seq!['y']);
            } else {
                assert(line@.take(1) != seq!['y']);
            }
        }
        c == 'y'
    } else {
        proof {
            assert(line@.take(k as int).len() != 1);
        }
        false
    }
}

/// The formatting target a disk-choice line selects.
#[derive(Debug, Clone, PartialEq, Eq)]
pub enum DiskTarget {
    /// The reserved in-memory disk path was entered.
    Memory,
    /// Any other path: format that disk.
    Disk(String),
}

/// Decides the formatting target: the line, trailing whitespace dropped,
/// selects the in-memory disk when it equals `/dev/mem`, and otherwise
/// names the disk to format.
pub fn disk_choice(line: &str) -> (t: DiskTarget)
    ensures
        spec_trim_end(line@) == "/dev/mem"@ ==> t == DiskTarget::Memory,
        spec_trim_end(line@) != "/dev/mem"@ ==> (t matches DiskTarget::Disk(d) && d@
            == spec_trim_end(line@)),
{
    let k = trimmed_len(line);
    let t = line.substring_char(0, k);
    if str_eq(t, "/dev/mem") {
        DiskTarget::Memory
    } else {
        DiskTarget::Disk(t.to_owned())
    }
}

/// Drives one provisioning run from the observed environment.
///
/// The caller performs the reads and external calls and hands in what it
/// saw: whether confirmation was given, whether a storage medium is
/// mounted, and the outcome of the formatting command it was told to run
/// when none was.  A declined confirmation is a quiet, successful no-op;
/// a formatting failure aborts the flow unchanged; otherwise the whole
/// plan runs idempotently.
pub fn run_install(
    fs: &mut FileSystem,
    version: &[u8],
    assets: &Assets,
    confirmed: bool,
    storage_mounted: bool,
    format_result: Option<Result<(), ExitCode>>,
) -> (r: (Result<(), ExitCode>, Vec<Event>))
    requires
        confirmed && !storage_mounted ==> format_result is Some,
    ensures
        !confirmed ==> final(fs)@ == old(fs)@
            && final(fs).stored() == old(fs).stored()
            && r.0 == Ok::<(), ExitCode>(())
            && r.1@.len() == 0,
        confirmed && !storage_mounted ==> (format_result matches Some(Err(e)) ==> final(fs)@
            == old(fs)@
            && final(fs).stored() == old(fs).stored()
            && r.0 == Err::<(), ExitCode>(e)
            && r.1@.len() == 0),
        confirmed && (storage_mounted || format_result == Some(Ok::<(), ExitCode>(())))
            ==> final(fs)@ == apply_plan(old(fs)@, spec_plan(*assets), version@)
            && events_view(r.1@) == plan_events(old(fs)@, spec_plan(*assets), version@)
            && final(fs).stored() == old(fs).stored() + r.1@.len()
            && r.0 == Ok::<(), ExitCode>(()),
{
    if !confirmed {
        return (Ok(()), Vec::new());
    }
    if !storage_mounted {
        match format_result {
            Some(Err(e)) => {
                return (Err(e), Vec::new());
            }
            Some(Ok(())) => {}
            None => {
                proof {
                    assert(false);
                }
                return (Ok(()), Vec::new());
            }
        }
    }
    let events = copy_files(fs, version, assets);
    (Ok(()), events)
}

/// The flow's last gate: a missing user account is created by the caller,
/// and only a hard failure of that creation aborts the flow; any other
/// outcome, or a user already present, concludes successfully.
pub fn conclude_user(
    user_missing: bool,
    create_result: Option<Result<(), ExitCode>>,
) -> (r: Result<(), ExitCode>)
    requires
        user_missing ==> create_result is Some,
    ensures
        user_missing && create_result == Some(Err::<(), ExitCode>(ExitCode::Failure)) ==> r
            == Err::<(), ExitCode>(ExitCode::Failure),
        !(user_missing && create_result == Some(Err::<(), ExitCode>(ExitCode::Failure))) ==> r
            == Ok::<(), ExitCode>(()),
{
    if user_missing {
        match create_result {
            Some(Err(e)) => {
                if matches!(e, ExitCode::Failure) {
                    return Err(ExitCode::Failure);
                }
                Ok(())
            }
            _ => Ok(()),
        }
    } else {
        Ok(())
    }
}

} // verus!
