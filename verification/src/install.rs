//! The provisioning orchestrator: a fixed, dependency-ordered plan of
//! directory, device and file creations, executed idempotently against the
//! modelled filesystem.

use vstd::prelude::*;
use vstd::slice::slice_to_vec;
use crate::device::{DeviceKind, spec_descriptor, encode};
use crate::text::{spec_materialized, materialize};
use crate::vfs::{FileSystem, FsNode, NodeData};

verus! {

/// One step of the provisioning plan.
#[derive(Debug, Clone, PartialEq, Eq)]
pub enum Step {
    MakeDir(String),
    MakeDevice(String, DeviceKind),
    CopyFile(String, Vec<u8>),
}

/// Mathematical model of a step.
pub enum StepView {
    MakeDir(Seq<char>),
    MakeDevice(Seq<char>, DeviceKind),
    CopyFile(Seq<char>, Seq<u8>),
}

impl View for Step {
    type V = StepView;

    open spec fn view(&self) -> StepView {
        match self {
            Step::MakeDir(p) => StepView::MakeDir(p@),
            Step::MakeDevice(p, k) => StepView::MakeDevice(p@, *k),
            Step::CopyFile(p, c) => StepView::CopyFile(p@, c@),
        }
    }
}

/// A progress event: one creation that actually happened.
#[derive(Debug, Clone, PartialEq, Eq)]
pub enum Event {
    Created(String),
    Copied(String),
}

/// Mathematical model of an event.
pub enum EventView {
    Created(Seq<char>),
    Copied(Seq<char>),
}

impl View for Event {
    type V = EventView;

    open spec fn view(&self) -> EventView {
        match self {
            Event::Created(p) => EventView::Created(p@),
            Event::Copied(p) => EventView::Copied(p@),
        }
    }
}

/// The path a step provisions.
pub open spec fn step_path(s: StepView) -> Seq<char> {
    match s {
        StepView::MakeDir(p) => p,
        StepView::MakeDevice(p, _) => p,
        StepView::CopyFile(p, _) => p,
    }
}

/// The node a step creates, under build version `version`.
pub open spec fn step_node(s: StepView, version: Seq<u8>) -> FsNode {
    match s {
        StepView::MakeDir(_) => FsNode::Dir,
        StepView::MakeDevice(p, k) => FsNode::Device(spec_descriptor(k, p)),
        StepView::CopyFile(p, c) => FsNode::File(spec_materialized(p, c, version)),
    }
}

/// The event a step emits when it does create its node.
pub open spec fn step_event(s: StepView) -> EventView {
    match s {
        StepView::MakeDir(p) => EventView::Created(p),
        StepView::MakeDevice(p, _) => EventView::Created(p),
        StepView::CopyFile(p, _) => EventView::Copied(p),
    }
}

/// One step applied to a tree: a no-op when the path already has a node,
/// the step's node inserted otherwise.
pub open spec fn apply_step(
    m: Map<Seq<char>, FsNode>,
    s: StepView,
    version: Seq<u8>,
) -> Map<Seq<char>, FsNode> {
    if m.contains_key(step_path(s)) {
        m
    } else {
        m.insert(step_path(s), step_node(s, version))
    }
}

/// A plan applied to a tree, step by step from the left.
pub open spec fn apply_plan(
    m: Map<Seq<char>, FsNode>,
    steps: Seq<StepView>,
    version: Seq<u8>,
) -> Map<Seq<char>, FsNode>
    decreases steps.len(),
{
    if steps.len() == 0 {
        m
    } else {
        apply_plan(apply_step(m, steps[0], version), steps.skip(1), version)
    }
}

/// The events a plan emits when applied to a tree: one per step whose path
/// was not yet present at its turn.
pub open spec fn plan_events(
    m: Map<Seq<char>, FsNode>,
    steps: Seq<StepView>,
    version: Seq<u8>,
) -> Seq<EventView>
    decreases steps.len(),
{
    if steps.len() == 0 {
        Seq::empty()
    } else {
        let head: Seq<EventView> = if m.contains_key(step_path(steps[0])) {
            Seq::empty()
        } else {
            seq![step_event(steps[0])]
        };
        head + plan_events(apply_step(m, steps[0], version), steps.skip(1), version)
    }
}

/// The views of a sequence of events.
pub open spec fn events_view(s: Seq<Event>) -> Seq<EventView> {
    s.map_values(|e: Event| e@)
}

/// The views of a sequence of steps.
pub open spec fn steps_view(s: Seq<Step>) -> Seq<StepView> {
    s.map_values(|st: Step| st@)
}

/// Creates a directory at `path` unless a node is already there, recording
/// an event when it does create one.
pub fn create_dir(fs: &mut FileSystem, events: &mut Vec<Event>, path: &str)
    ensures
        old(fs)@.contains_key(path@) ==> final(fs)@ == old(fs)@
            && final(events)@ == old(events)@
            && final(fs).stored() == old(fs).stored(),
        !old(fs)@.contains_key(path@) ==> final(fs)@ == old(fs)@.insert(path@, FsNode::Dir)
            && events_view(final(events)@) == events_view(old(events)@).push(
            EventView::Created(path@),
        ) && final(fs).stored() == old(fs).stored() + 1,
{
    if !fs.present(path) {
        fs.put(path, NodeData::Dir);
        events.push(Event::Created(path.to_owned()));
        proof {
            assert(events_view(events@) =~= events_view(old(events)@).push(
                EventView::Created(path@),
            ));
        }
    }
}

/// Creates the device node for `kind` at `path` unless a node is already
/// there, encoding its descriptor from the kind and the path.
pub fn create_dev(fs: &mut FileSystem, events: &mut Vec<Event>, path: &str, kind: DeviceKind)
    ensures
        old(fs)@.contains_key(path@) ==> final(fs)@ == old(fs)@
            && final(events)@ == old(events)@
            && final(fs).stored() == old(fs).stored(),
        !old(fs)@.contains_key(path@) ==> final(fs)@ == old(fs)@.insert(
            path@,
            FsNode::Device(spec_descriptor(kind, path@)),
        ) && events_view(final(events)@) == events_view(old(events)@).push(
            EventView::Created(path@),
        ) && final(fs).stored() == old(fs).stored() + 1,
{
    if !fs.present(path) {
        let buf = encode(kind, path);
        fs.put(path, NodeData::Device(buf));
        events.push(Event::Created(path.to_owned()));
        proof {
            assert(events_view(events@) =~= events_view(old(events)@).push(
                EventView::Created(path@),
            ));
        }
    }
}

/// Materializes the asset `content` at `path` unless a node is already
/// there, substituting the version string into `.txt` assets.
pub fn copy_file(
    fs: &mut FileSystem,
    events: &mut Vec<Event>,
    path: &str,
    content: &[u8],
    version: &[u8],
)
    ensures
        old(fs)@.contains_key(path@) ==> final(fs)@ == old(fs)@
            && final(events)@ == old(events)@
            && final(fs).stored() == old(fs).stored(),
        !old(fs)@.contains_key(path@) ==> final(fs)@ == old(fs)@.insert(
            path@,
            FsNode::File(spec_materialized(path@, content@, version@)),
        ) && events_view(final(events)@) == events_view(old(events)@).push(
            EventView::Copied(path@),
        ) && final(fs).stored() == old(fs).stored() + 1,
{
    if !fs.present(path) {
        let data = materialize(path, content, version);
        fs.put(path, NodeData::File(data));
        events.push(Event::Copied(path.to_owned()));
        proof {
            assert(events_view(events@) =~= events_view(old(events)@).push(
                EventView::Copied(path@),
            ));
        }
    }
}

/// Applying a plan extended by one step is applying the plan, then the step.
pub proof fn lemma_apply_plan_snoc(
    m: Map<Seq<char>, FsNode>,
    ss: Seq<StepView>,
    s: StepView,
    version: Seq<u8>,
)
    ensures
        apply_plan(m, ss.push(s), version) == apply_step(apply_plan(m, ss, version), s, version),
    decreases ss.len(),
{
    reveal_with_fuel(apply_plan, 2);
    if ss.len() == 0 {
        assert(ss.push(s)[0] == s);
        assert(ss.push(s).skip(1) =~= Seq::<StepView>::empty());
        assert(apply_plan(m, ss.push(s), version) == apply_step(m, s, version));
        assert(apply_plan(m, ss, version) == m);
    } else {
        assert(ss.push(s)[0] == ss[0]);
        assert(ss.push(s).skip(1) =~= ss.skip(1).push(s));
        let m1 = apply_step(m, ss[0], version);
        lemma_apply_plan_snoc(m1, ss.skip(1), s, version);
        assert(apply_plan(m, ss.push(s), version) == apply_plan(m1, ss.skip(1).push(s), version));
        assert(apply_plan(m, ss, version) == apply_plan(m1, ss.skip(1), version));
    }
}

/// The events of a plan extended by one step are the plan's events, then
/// the step's event if its path is still absent after the plan.
pub proof fn lemma_plan_events_snoc(
    m: Map<Seq<char>, FsNode>,
    ss: Seq<StepView>,
    s: StepView,
    version: Seq<u8>,
)
    ensures
        plan_events(m, ss.push(s), version) == plan_events(m, ss, version) + (
        if apply_plan(m, ss, version).contains_key(step_path(s)) {
            Seq::<EventView>::empty()
        } else {
            seq![step_event(s)]
        }),
    decreases ss.len(),
{
    reveal_with_fuel(apply_plan, 2);
    reveal_with_fuel(plan_events, 2);
    if ss.len() == 0 {
        assert(ss.push(s)[0] == s);
        assert(ss.push(s).skip(1) =~= Seq::<StepView>::empty());
        assert(plan_events(m, ss, version) == Seq::<EventView>::empty());
        assert(apply_plan(m, ss, version) == m);
        assert(plan_events(m, ss.push(s), version) =~= plan_events(m, ss, version) + (
        if apply_plan(m, ss, version).contains_key(step_path(s)) {
            Seq::<EventView>::empty()
        } else {
            seq![step_event(s)]
        }));
    } else {
        assert(ss.push(s)[0] == ss[0]);
        assert(ss.push(s).skip(1) =~= ss.skip(1).push(s));
        let m1 = apply_step(m, ss[0], version);
        lemma_plan_events_snoc(m1, ss.skip(1), s, version);
        assert(plan_events(m, ss.push(s), version) == (
        if m.contains_key(step_path(ss[0])) {
            Seq::<EventView>::empty()
        } else {
            seq![step_event(ss[0])]
        }) + plan_events(m1, ss.skip(1).push(s), version));
        assert(plan_events(m, ss, version) == (
        if m.contains_key(step_path(ss[0])) {
            Seq::<EventView>::empty()
        } else {
            seq![step_event(ss[0])]
        }) + plan_events(m1, ss.skip(1), version));
        assert(apply_plan(m, ss, version) == apply_plan(m1, ss.skip(1), version));
        assert(plan_events(m, ss.push(s), version) =~= plan_events(m, ss, version) + (
        if apply_plan(m, ss, version).contains_key(step_path(s)) {
            Seq::<EventView>::empty()
        } else {
            seq![step_event(s)]
        }));
    }
}

/// Runs a plan against the filesystem: every step routes through the
/// idempotency guard, and each creation that happens emits one event.
pub fn run_plan(fs: &mut FileSystem, steps: &Vec<Step>, version: &[u8]) -> (events: Vec<Event>)
    ensures
        final(fs)@ == apply_plan(old(fs)@, steps_view(steps@), version@),
        events_view(events@) == plan_events(old(fs)@, steps_view(steps@), version@),
        final(fs).stored() == old(fs).stored() + events@.len(),
{
    let ghost m0 = fs@;
    let ghost sv = steps_view(steps@);
    let mut events: Vec<Event> = Vec::new();
    let n = steps.len();
    let mut i: usize = 0;
    proof {
        assert(sv.take(0) =~= Seq::<StepView>::empty());
        assert(events_view(events@) =~= plan_events(m0, sv.take(0), version@));
    }
    while i < n
        invariant
            n == steps@.len(),
            i <= n,
            sv == steps_view(steps@),
            fs@ == apply_plan(m0, sv.take(i as int), version@),
            events_view(events@) == plan_events(m0, sv.take(i as int), version@),
            fs.stored() == old(fs).stored() + events@.len(),
            old(fs)@ == m0,
        decreases n - i,
    {
        let ghost pre = fs@;
        let ghost pre_events = events_view(events@);
        let ghost s = sv[i as int];
        proof {
            assert(sv[i as int] == steps@[i as int]@);
            lemma_apply_plan_snoc(m0, sv.take(i as int), s, version@);
            lemma_plan_events_snoc(m0, sv.take(i as int), s, version@);
            assert(sv.take(i + 1) =~= sv.take(i as int).push(s));
        }
        match &steps[i] {
            Step::MakeDir(p) => {
                create_dir(fs, &mut events, p.as_str());
            }
            Step::MakeDevice(p, k) => {
                create_dev(fs, &mut events, p.as_str(), *k);
            }
            Step::CopyFile(p, c) => {
                copy_file(fs, &mut events, p.as_str(), c.as_slice(), version);
            }
        }
        proof {
            if pre.contains_key(step_path(s)) {
                assert(plan_events(m0, sv.take(i + 1), version@) =~= pre_events);
            } else {
                assert(plan_events(m0, sv.take(i + 1), version@) =~= pre_events.push(
                    step_event(s),
                ));
            }
        }
        i = i + 1;
    }
    proof {
        assert(sv.take(n as int) =~= sv);
    }
    events
}

/// The path an event reports.
pub open spec fn event_path(e: EventView) -> Seq<char> {
    match e {
        EventView::Created(p) => p,
        EventView::Copied(p) => p,
    }
}

/// A path present before a plan runs is still present afterwards.
pub proof fn lemma_apply_plan_monotone(
    m: Map<Seq<char>, FsNode>,
    steps: Seq<StepView>,
    version: Seq<u8>,
    p: Seq<char>,
)
    requires
        m.contains_key(p),
    ensures
        apply_plan(m, steps, version).contains_key(p),
    decreases steps.len(),
{
    if steps.len() > 0 {
        lemma_apply_plan_monotone(apply_step(m, steps[0], version), steps.skip(1), version, p);
    }
}

/// No creation action overwrites an existing entry: whatever node a path
/// held before a plan ran, it still holds afterwards.
pub proof fn lemma_apply_plan_preserves(
    m: Map<Seq<char>, FsNode>,
    steps: Seq<StepView>,
    version: Seq<u8>,
    p: Seq<char>,
)
    requires
        m.contains_key(p),
    ensures
        apply_plan(m, steps, version).contains_key(p),
        apply_plan(m, steps, version)[p] == m[p],
    decreases steps.len(),
{
    if steps.len() > 0 {
        lemma_apply_plan_preserves(apply_step(m, steps[0], version), steps.skip(1), version, p);
    }
}

/// Every step's path is present once the plan has run, whether the step
/// created it or it was already there.
pub proof fn lemma_apply_plan_covers(
    m: Map<Seq<char>, FsNode>,
    steps: Seq<StepView>,
    version: Seq<u8>,
    i: int,
)
    requires
        0 <= i < steps.len(),
    ensures
        apply_plan(m, steps, version).contains_key(step_path(steps[i])),
    decreases steps.len(),
{
    if i == 0 {
        lemma_apply_plan_monotone(
            apply_step(m, steps[0], version),
            steps.skip(1),
            version,
            step_path(steps[0]),
        );
    } else {
        assert(steps.skip(1)[i - 1] == steps[i]);
        lemma_apply_plan_covers(apply_step(m, steps[0], version), steps.skip(1), version, i - 1);
    }
}

/// A plan all of whose paths are already present changes nothing and emits
/// no event.
pub proof fn lemma_apply_plan_stable(
    m: Map<Seq<char>, FsNode>,
    steps: Seq<StepView>,
    version: Seq<u8>,
)
    requires
        forall|i: int| 0 <= i < steps.len() ==> m.contains_key(step_path(#[trigger] steps[i])),
    ensures
        apply_plan(m, steps, version) == m,
        plan_events(m, steps, version) == Seq::<EventView>::empty(),
    decreases steps.len(),
{
    if steps.len() > 0 {
        assert(m.contains_key(step_path(steps[0])));
        assert forall|i: int| 0 <= i < steps.skip(1).len() implies m.contains_key(
            step_path(#[trigger] steps.skip(1)[i]),
        ) by {
            assert(steps.skip(1)[i] == steps[i + 1]);
        }
        lemma_apply_plan_stable(m, steps.skip(1), version);
        assert(plan_events(m, steps, version) =~= Seq::<EventView>::empty());
    }
}

/// Idempotence: running a plan a second time over the tree the first run
/// produced changes nothing and emits no event.
pub proof fn lemma_plan_idempotent(
    m: Map<Seq<char>, FsNode>,
    steps: Seq<StepView>,
    version: Seq<u8>,
)
    ensures
        apply_plan(apply_plan(m, steps, version), steps, version) == apply_plan(m, steps, version),
        plan_events(apply_plan(m, steps, version), steps, version) == Seq::<EventView>::empty(),
{
    let m1 = apply_plan(m, steps, version);
    assert forall|i: int| 0 <= i < steps.len() implies m1.contains_key(
        step_path(#[trigger] steps[i]),
    ) by {
        lemma_apply_plan_covers(m, steps, version, i);
    }
    lemma_apply_plan_stable(m1, steps, version);
}

/// Skip on exists: no creation event ever fires for a path that was already
/// present when the plan started; the other steps are unaffected.
pub proof fn lemma_no_event_for_existing(
    m: Map<Seq<char>, FsNode>,
    steps: Seq<StepView>,
    version: Seq<u8>,
    p: Seq<char>,
)
    requires
        m.contains_key(p),
    ensures
        forall|j: int| 0 <= j < plan_events(m, steps, version).len() ==> event_path(
            #[trigger] plan_events(m, steps, version)[j],
        ) != p,
    decreases steps.len(),
{
    if steps.len() > 0 {
        let m1 = apply_step(m, steps[0], version);
        assert(m1.contains_key(p));
        lemma_no_event_for_existing(m1, steps.skip(1), version, p);
        let head: Seq<EventView> = if m.contains_key(step_path(steps[0])) {
            Seq::empty()
        } else {
            seq![step_event(steps[0])]
        };
        let rest = plan_events(m1, steps.skip(1), version);
        assert(plan_events(m, steps, version) == head + rest);
        assert forall|j: int| 0 <= j < plan_events(m, steps, version).len() implies event_path(
            plan_events(m, steps, version)[j],
        ) != p by {
            if j < head.len() {
                assert(!m.contains_key(step_path(steps[0])));
                assert(step_path(steps[0]) != p);
                assert(plan_events(m, steps, version)[j] == head[0]);
                assert(event_path(step_event(steps[0])) == step_path(steps[0]));
            } else {
                assert(plan_events(m, steps, version)[j] == rest[j - head.len()]);
            }
        }
    }
}

/// True when `p` names a child of the filesystem root: a leading slash
/// and no further slash.
pub open spec fn is_root_child(p: Seq<char>) -> bool {
    &&& p.len() >= 2
    &&& p[0] == '/'
    &&& forall|k: int| 1 <= k < p.len() ==> p[k] != '/'
}

/// True when `d` is the parent directory of `p`: `p` is `d`, then a slash,
/// then a final slash-free name.
pub open spec fn is_dir_of(d: Seq<char>, p: Seq<char>) -> bool {
    &&& d.len() >= 1
    &&& p.len() > d.len() + 1
    &&& p.subrange(0, d.len() as int) == d
    &&& p[d.len() as int] == '/'
    &&& forall|k: int| d.len() + 1 <= k < p.len() ==> p[k] != '/'
}

/// True when a step creates a directory.
pub open spec fn is_dir_step(s: StepView) -> bool {
    match s {
        StepView::MakeDir(_) => true,
        _ => false,
    }
}

/// Step `i` has its parent covered: its path is a child of the root, or an
/// earlier step creates its parent directory.
pub open spec fn parent_covered(steps: Seq<StepView>, i: int) -> bool {
    ||| is_root_child(step_path(steps[i]))
    ||| exists|j: int|
        0 <= j < i && is_dir_step(#[trigger] steps[j]) && is_dir_of(
            step_path(steps[j]),
            step_path(steps[i]),
        )
}

/// Parent always before child, plan-wide.
pub open spec fn parent_closed(steps: Seq<StepView>) -> bool {
    forall|i: int| 0 <= i < steps.len() ==> #[trigger] parent_covered(steps, i)
}

/// The build-time asset contents the plan instantiates.
pub struct Assets {
    pub bin_clear: Vec<u8>,
    pub bin_halt: Vec<u8>,
    pub bin_print: Vec<u8>,
    pub ini_banner: Vec<u8>,
    pub ini_boot: Vec<u8>,
    pub ini_shell: Vec<u8>,
    pub ini_version: Vec<u8>,
    pub palette_dark: Vec<u8>,
    pub palette_light: Vec<u8>,
    pub font_light: Vec<u8>,
    pub font_vga: Vec<u8>,
    pub tmp_alice: Vec<u8>,
    pub tmp_machines: Vec<u8>,
    pub beep_tetris: Vec<u8>,
    pub beep_starwars: Vec<u8>,
    pub beep_mario: Vec<u8>,
}

/// The fixed provisioning plan: directories always before their contents.
pub open spec fn spec_plan(a: Assets) -> Seq<StepView> {
    seq![
        StepView::MakeDir("/bin"@),
        StepView::MakeDir("/dev"@),
        StepView::MakeDir("/ini"@),
        StepView::MakeDir("/lib"@),
        StepView::MakeDir("/net"@),
        StepView::MakeDir("/src"@),
        StepView::MakeDir("/tmp"@),
        StepView::MakeDir("/usr"@),
        StepView::MakeDir("/var"@),
        StepView::CopyFile("/bin/clear"@, a.bin_clear@),
        StepView::CopyFile("/bin/halt"@, a.bin_halt@),
        StepView::CopyFile("/bin/print"@, a.bin_print@),
        StepView::MakeDir("/dev/ata"@),
        StepView::MakeDir("/dev/ata/0"@),
        StepView::MakeDevice("/dev/ata/0/0"@, DeviceKind::Drive),
        StepView::MakeDevice("/dev/ata/0/1"@, DeviceKind::Drive),
        StepView::MakeDir("/dev/ata/1"@),
        StepView::MakeDevice("/dev/ata/1/0"@, DeviceKind::Drive),
        StepView::MakeDevice("/dev/ata/1/1"@, DeviceKind::Drive),
        StepView::MakeDir("/dev/clk"@),
        StepView::MakeDevice("/dev/clk/uptime"@, DeviceKind::Uptime),
        StepView::MakeDevice("/dev/clk/realtime"@, DeviceKind::Realtime),
        StepView::MakeDevice("/dev/rtc"@, DeviceKind::Rtc),
        StepView::MakeDevice("/dev/null"@, DeviceKind::Null),
        StepView::MakeDevice("/dev/random"@, DeviceKind::Random),
        StepView::MakeDevice("/dev/console"@, DeviceKind::Console),
        StepView::MakeDir("/dev/net"@),
        StepView::MakeDevice("/dev/net/tcp"@, DeviceKind::TcpSocket),
        StepView::MakeDevice("/dev/net/udp"@, DeviceKind::UdpSocket),
        StepView::CopyFile("/ini/banner.txt"@, a.ini_banner@),
        StepView::CopyFile("/ini/boot.sh"@, a.ini_boot@),
        StepView::CopyFile("/ini/shell.sh"@, a.ini_shell@),
        StepView::CopyFile("/ini/version.txt"@, a.ini_version@),
        StepView::MakeDir("/ini/palettes"@),
        StepView::CopyFile("/ini/palettes/gruvbox-dark.sh"@, a.palette_dark@),
        StepView::CopyFile("/ini/palettes/gruvbox-light.sh"@, a.palette_light@),
        StepView::MakeDir("/ini/fonts"@),
        StepView::CopyFile("/ini/fonts/zap-light-8x16.psf"@, a.font_light@),
        StepView::CopyFile("/ini/fonts/zap-vga-8x16.psf"@, a.font_vga@),
        StepView::CopyFile("/tmp/alice.txt"@, a.tmp_alice@),
        StepView::CopyFile("/tmp/machines.txt"@, a.tmp_machines@),
        StepView::MakeDir("/tmp/beep"@),
        StepView::CopyFile("/tmp/beep/tetris.sh"@, a.beep_tetris@),
        StepView::CopyFile("/tmp/beep/starwars.sh"@, a.beep_starwars@),
        StepView::CopyFile("/tmp/beep/mario.sh"@, a.beep_mario@),
    ]
}

/// Builds the fixed provisioning plan from the asset contents.
pub fn provisioning_plan(assets: &Assets) -> (steps: Vec<Step>)
    ensures
        steps_view(steps@) == spec_plan(*assets),
{
    let mut steps: Vec<Step> = Vec::new();
    steps.push(Step::MakeDir("/bin".to_owned()));
    steps.push(Step::MakeDir("/dev".to_owned()));
    steps.push(Step::MakeDir("/ini".to_owned()));
    steps.push(Step::MakeDir("/lib".to_owned()));
    steps.push(Step::MakeDir("/net".to_owned()));
    steps.push(Step::MakeDir("/src".to_owned()));
    steps.push(Step::MakeDir("/tmp".to_owned()));
    steps.push(Step::MakeDir("/usr".to_owned()));
    steps.push(Step::MakeDir("/var".to_owned()));
    steps.push(Step::CopyFile("/bin/clear".to_owned(), slice_to_vec(assets.bin_clear.as_slice())));
    steps.push(Step::CopyFile("/bin/halt".to_owned(), slice_to_vec(assets.bin_halt.as_slice())));
    steps.push(Step::CopyFile("/bin/print".to_owned(), slice_to_vec(assets.bin_print.as_slice())));
    steps.push(Step::MakeDir("/dev/ata".to_owned()));
    steps.push(Step::MakeDir("/dev/ata/0".to_owned()));
    steps.push(Step::MakeDevice("/dev/ata/0/0".to_owned(), DeviceKind::Drive));
    steps.push(Step::MakeDevice("/dev/ata/0/1".to_owned(), DeviceKind::Drive));
    steps.push(Step::MakeDir("/dev/ata/1".to_owned()));
    steps.push(Step::MakeDevice("/dev/ata/1/0".to_owned(), DeviceKind::Drive));
    steps.push(Step::MakeDevice("/dev/ata/1/1".to_owned(), DeviceKind::Drive));
    steps.push(Step::MakeDir("/dev/clk".to_owned()));
    steps.push(Step::MakeDevice("/dev/clk/uptime".to_owned(), DeviceKind::Uptime));
    steps.push(Step::MakeDevice("/dev/clk/realtime".to_owned(), DeviceKind::Realtime));
    steps.push(Step::MakeDevice("/dev/rtc".to_owned(), DeviceKind::Rtc));
    steps.push(Step::MakeDevice("/dev/null".to_owned(), DeviceKind::Null));
    steps.push(Step::MakeDevice("/dev/random".to_owned(), DeviceKind::Random));
    steps.push(Step::MakeDevice("/dev/console".to_owned(), DeviceKind::Console));
    steps.push(Step::MakeDir("/dev/net".to_owned()));
    steps.push(Step::MakeDevice("/dev/net/tcp".to_owned(), DeviceKind::TcpSocket));
    steps.push(Step::MakeDevice("/dev/net/udp".to_owned(), DeviceKind::UdpSocket));
    steps.push(Step::CopyFile("/ini/banner.txt".to_owned(), slice_to_vec(assets.ini_banner.as_slice())));
    steps.push(Step::CopyFile("/ini/boot.sh".to_owned(), slice_to_vec(assets.ini_boot.as_slice())));
    steps.push(Step::CopyFile("/ini/shell.sh".to_owned(), slice_to_vec(assets.ini_shell.as_slice())));
    steps.push(Step::CopyFile("/ini/version.txt".to_owned(), slice_to_vec(assets.ini_version.as_slice())));
    steps.push(Step::MakeDir("/ini/palettes".to_owned()));
    steps.push(Step::CopyFile("/ini/palettes/gruvbox-dark.sh".to_owned(), slice_to_vec(assets.palette_dark.as_slice())));
    steps.push(Step::CopyFile("/ini/palettes/gruvbox-light.sh".to_owned(), slice_to_vec(assets.palette_light.as_slice())));
    steps.push(Step::MakeDir("/ini/fonts".to_owned()));
    steps.push(Step::CopyFile("/ini/fonts/zap-light-8x16.psf".to_owned(), slice_to_vec(assets.font_light.as_slice())));
    steps.push(Step::CopyFile("/ini/fonts/zap-vga-8x16.psf".to_owned(), slice_to_vec(assets.font_vga.as_slice())));
    steps.push(Step::CopyFile("/tmp/alice.txt".to_owned(), slice_to_vec(assets.tmp_alice.as_slice())));
    steps.push(Step::CopyFile("/tmp/machines.txt".to_owned(), slice_to_vec(assets.tmp_machines.as_slice())));
    steps.push(Step::MakeDir("/tmp/beep".to_owned()));
    steps.push(Step::CopyFile("/tmp/beep/tetris.sh".to_owned(), slice_to_vec(assets.beep_tetris.as_slice())));
    steps.push(Step::CopyFile("/tmp/beep/starwars.sh".to_owned(), slice_to_vec(assets.beep_starwars.as_slice())));
    steps.push(Step::CopyFile("/tmp/beep/mario.sh".to_owned(), slice_to_vec(assets.beep_mario.as_slice())));
    proof {
        assert(steps_view(steps@) =~= spec_plan(*assets));
    }
    steps
}

/// Provisions the whole tree: the fixed plan, idempotently, with the build
/// version string substituted into text assets.
pub fn copy_files(fs: &mut FileSystem, version: &[u8], assets: &Assets) -> (events: Vec<Event>)
    ensures
        final(fs)@ == apply_plan(old(fs)@, spec_plan(*assets), version@),
        events_view(events@) == plan_events(old(fs)@, spec_plan(*assets), version@),
        final(fs).stored() == old(fs).stored() + events@.len(),
{
    let steps = provisioning_plan(assets);
    run_plan(fs, &steps, version)
}


/// Parent before child: each plan step's path is either a direct child
/// of the root, or a directory-creation step for its parent directory
/// stands earlier in the plan.
#[verifier::rlimit(100)]
pub proof fn lemma_plan_parent_closed(a: Assets)
    ensures
        parent_closed(spec_plan(a)),
{
    let plan = spec_plan(a);
    reveal_strlit("/bin");
    reveal_strlit("/bin/clear");
    reveal_strlit("/bin/halt");
    reveal_strlit("/bin/print");
    reveal_strlit("/dev");
    reveal_strlit("/dev/ata");
    reveal_strlit("/dev/ata/0");
    reveal_strlit("/dev/ata/0/0");
    reveal_strlit("/dev/ata/0/1");
    reveal_strlit("/dev/ata/1");
    reveal_strlit("/dev/ata/1/0");
    reveal_strlit("/dev/ata/1/1");
    reveal_strlit("/dev/clk");
    reveal_strlit("/dev/clk/realtime");
    reveal_strlit("/dev/clk/uptime");
    reveal_strlit("/dev/console");
    reveal_strlit("/dev/net");
    reveal_strlit("/dev/net/tcp");
    reveal_strlit("/dev/net/udp");
    reveal_strlit("/dev/null");
    reveal_strlit("/dev/random");
    reveal_strlit("/dev/rtc");
    reveal_strlit("/ini");
    reveal_strlit("/ini/banner.txt");
    reveal_strlit("/ini/boot.sh");
    reveal_strlit("/ini/fonts");
    reveal_strlit("/ini/fonts/zap-light-8x16.psf");
    reveal_strlit("/ini/fonts/zap-vga-8x16.psf");
    reveal_strlit("/ini/palettes");
    reveal_strlit("/ini/palettes/gruvbox-dark.sh");
    reveal_strlit("/ini/palettes/gruvbox-light.sh");
    reveal_strlit("/ini/shell.sh");
    reveal_strlit("/ini/version.txt");
    reveal_strlit("/lib");
    reveal_strlit("/net");
    reveal_strlit("/src");
    reveal_strlit("/tmp");
    reveal_strlit("/tmp/alice.txt");
    reveal_strlit("/tmp/beep");
    reveal_strlit("/tmp/beep/mario.sh");
    reveal_strlit("/tmp/beep/starwars.sh");
    reveal_strlit("/tmp/beep/tetris.sh");
    reveal_strlit("/tmp/machines.txt");
    reveal_strlit("/usr");
    reveal_strlit("/var");
    assert(parent_covered(plan, 0)) by {
        assert(is_root_child("/bin"@));
    }
    assert(parent_covered(plan, 1)) by {
        assert(is_root_child("/dev"@));
    }
    assert(parent_covered(plan, 2)) by {
        assert(is_root_child("/ini"@));
    }
    assert(parent_covered(plan, 3)) by {
        assert(is_root_child("/lib"@));
    }
    assert(parent_covered(plan, 4)) by {
        assert(is_root_child("/net"@));
    }
    assert(parent_covered(plan, 5)) by {
        assert(is_root_child("/src"@));
    }
    assert(parent_covered(plan, 6)) by {
        assert(is_root_child("/tmp"@));
    }
    assert(parent_covered(plan, 7)) by {
        assert(is_root_child("/usr"@));
    }
    assert(parent_covered(plan, 8)) by {
        assert(is_root_child("/var"@));
    }
    assert(parent_covered(plan, 9)) by {
        assert(("/bin/clear"@).subrange(0, 4) =~= "/bin"@);
        assert(is_dir_of("/bin"@, "/bin/clear"@));
        assert(is_dir_step(plan[0]) && step_path(plan[0]) == "/bin"@);
        assert(step_path(plan[9]) == "/bin/clear"@);
    }
    assert(parent_covered(plan, 10)) by {
        assert(("/bin/halt"@).subrange(0, 4) =~= "/bin"@);
        assert(is_dir_of("/bin"@, "/bin/halt"@));
        assert(is_dir_step(plan[0]) && step_path(plan[0]) == "/bin"@);
        assert(step_path(plan[10]) == "/bin/halt"@);
    }
    assert(parent_covered(plan, 11)) by {
        assert(("/bin/print"@).subrange(0, 4) =~= "/bin"@);
        assert(is_dir_of("/bin"@, "/bin/print"@));
        assert(is_dir_step(plan[0]) && step_path(plan[0]) == "/bin"@);
        assert(step_path(plan[11]) == "/bin/print"@);
    }
    assert(parent_covered(plan, 12)) by {
        assert(("/dev/ata"@).subrange(0, 4) =~= "/dev"@);
        assert(is_dir_of("/dev"@, "/dev/ata"@));
        assert(is_dir_step(plan[1]) && step_path(plan[1]) == "/dev"@);
        assert(step_path(plan[12]) == "/dev/ata"@);
    }
    assert(parent_covered(plan, 13)) by {
        assert(("/dev/ata/0"@).subrange(0, 8) =~= "/dev/ata"@);
        assert(is_dir_of("/dev/ata"@, "/dev/ata/0"@));
        assert(is_dir_step(plan[12]) && step_path(plan[12]) == "/dev/ata"@);
        assert(step_path(plan[13]) == "/dev/ata/0"@);
    }
    assert(parent_covered(plan, 14)) by {
        assert(("/dev/ata/0/0"@).subrange(0, 10) =~= "/dev/ata/0"@);
        assert(is_dir_of("/dev/ata/0"@, "/dev/ata/0/0"@));
        assert(is_dir_step(plan[13]) && step_path(plan[13]) == "/dev/ata/0"@);
        assert(step_path(plan[14]) == "/dev/ata/0/0"@);
    }
    assert(parent_covered(plan, 15)) by {
        assert(("/dev/ata/0/1"@).subrange(0, 10) =~= "/dev/ata/0"@);
        assert(is_dir_of("/dev/ata/0"@, "/dev/ata/0/1"@));
        assert(is_dir_step(plan[13]) && step_path(plan[13]) == "/dev/ata/0"@);
        assert(step_path(plan[15]) == "/dev/ata/0/1"@);
    }
    assert(parent_covered(plan, 16)) by {
        assert(("/dev/ata/1"@).subrange(0, 8) =~= "/dev/ata"@);
        assert(is_dir_of("/dev/ata"@, "/dev/ata/1"@));
        assert(is_dir_step(plan[12]) && step_path(plan[12]) == "/dev/ata"@);
        assert(step_path(plan[16]) == "/dev/ata/1"@);
    }
    assert(parent_covered(plan, 17)) by {
        assert(("/dev/ata/1/0"@).subrange(0, 10) =~= "/dev/ata/1"@);
        assert(is_dir_of("/dev/ata/1"@, "/dev/ata/1/0"@));
        assert(is_dir_step(plan[16]) && step_path(plan[16]) == "/dev/ata/1"@);
        assert(step_path(plan[17]) == "/dev/ata/1/0"@);
    }
    assert(parent_covered(plan, 18)) by {
        assert(("/dev/ata/1/1"@).subrange(0, 10) =~= "/dev/ata/1"@);
        assert(is_dir_of("/dev/ata/1"@, "/dev/ata/1/1"@));
        assert(is_dir_step(plan[16]) && step_path(plan[16]) == "/dev/ata/1"@);
        assert(step_path(plan[18]) == "/dev/ata/1/1"@);
    }
    assert(parent_covered(plan, 19)) by {
        assert(("/dev/clk"@).subrange(0, 4) =~= "/dev"@);
        assert(is_dir_of("/dev"@, "/dev/clk"@));
        assert(is_dir_step(plan[1]) && step_path(plan[1]) == "/dev"@);
        assert(step_path(plan[19]) == "/dev/clk"@);
    }
    assert(parent_covered(plan, 20)) by {
        assert(("/dev/clk/uptime"@).subrange(0, 8) =~= "/dev/clk"@);
        assert(is_dir_of("/dev/clk"@, "/dev/clk/uptime"@));
        assert(is_dir_step(plan[19]) && step_path(plan[19]) == "/dev/clk"@);
        assert(step_path(plan[20]) == "/dev/clk/uptime"@);
    }
    assert(parent_covered(plan, 21)) by {
        assert(("/dev/clk/realtime"@).subrange(0, 8) =~= "/dev/clk"@);
        assert(is_dir_of("/dev/clk"@, "/dev/clk/realtime"@));
        assert(is_dir_step(plan[19]) && step_path(plan[19]) == "/dev/clk"@);
        assert(step_path(plan[21]) == "/dev/clk/realtime"@);
    }
    assert(parent_covered(plan, 22)) by {
        assert(("/dev/rtc"@).subrange(0, 4) =~= "/dev"@);
        assert(is_dir_of("/dev"@, "/dev/rtc"@));
        assert(is_dir_step(plan[1]) && step_path(plan[1]) == "/dev"@);
        assert(step_path(plan[22]) == "/dev/rtc"@);
    }
    assert(parent_covered(plan, 23)) by {
        assert(("/dev/null"@).subrange(0, 4) =~= "/dev"@);
        assert(is_dir_of("/dev"@, "/dev/null"@));
        assert(is_dir_step(plan[1]) && step_path(plan[1]) == "/dev"@);
        assert(step_path(plan[23]) == "/dev/null"@);
    }
    assert(parent_covered(plan, 24)) by {
        assert(("/dev/random"@).subrange(0, 4) =~= "/dev"@);
        assert(is_dir_of("/dev"@, "/dev/random"@));
        assert(is_dir_step(plan[1]) && step_path(plan[1]) == "/dev"@);
        assert(step_path(plan[24]) == "/dev/random"@);
    }
    assert(parent_covered(plan, 25)) by {
        assert(("/dev/console"@).subrange(0, 4) =~= "/dev"@);
        assert(is_dir_of("/dev"@, "/dev/console"@));
        assert(is_dir_step(plan[1]) && step_path(plan[1]) == "/dev"@);
        assert(step_path(plan[25]) == "/dev/console"@);
    }
    assert(parent_covered(plan, 26)) by {
        assert(("/dev/net"@).subrange(0, 4) =~= "/dev"@);
        assert(is_dir_of("/dev"@, "/dev/net"@));
        assert(is_dir_step(plan[1]) && step_path(plan[1]) == "/dev"@);
        assert(step_path(plan[26]) == "/dev/net"@);
    }
    assert(parent_covered(plan, 27)) by {
        assert(("/dev/net/tcp"@).subrange(0, 8) =~= "/dev/net"@);
        assert(is_dir_of("/dev/net"@, "/dev/net/tcp"@));
        assert(is_dir_step(plan[26]) && step_path(plan[26]) == "/dev/net"@);
        assert(step_path(plan[27]) == "/dev/net/tcp"@);
    }
    assert(parent_covered(plan, 28)) by {
        assert(("/dev/net/udp"@).subrange(0, 8) =~= "/dev/net"@);
        assert(is_dir_of("/dev/net"@, "/dev/net/udp"@));
        assert(is_dir_step(plan[26]) && step_path(plan[26]) == "/dev/net"@);
        assert(step_path(plan[28]) == "/dev/net/udp"@);
    }
    assert(parent_covered(plan, 29)) by {
        assert(("/ini/banner.txt"@).subrange(0, 4) =~= "/ini"@);
        assert(is_dir_of("/ini"@, "/ini/banner.txt"@));
        assert(is_dir_step(plan[2]) && step_path(plan[2]) == "/ini"@);
        assert(step_path(plan[29]) == "/ini/banner.txt"@);
    }
    assert(parent_covered(plan, 30)) by {
        assert(("/ini/boot.sh"@).subrange(0, 4) =~= "/ini"@);
        assert(is_dir_of("/ini"@, "/ini/boot.sh"@));
        assert(is_dir_step(plan[2]) && step_path(plan[2]) == "/ini"@);
        assert(step_path(plan[30]) == "/ini/boot.sh"@);
    }
    assert(parent_covered(plan, 31)) by {
        assert(("/ini/shell.sh"@).subrange(0, 4) =~= "/ini"@);
        assert(is_dir_of("/ini"@, "/ini/shell.sh"@));
        assert(is_dir_step(plan[2]) && step_path(plan[2]) == "/ini"@);
        assert(step_path(plan[31]) == "/ini/shell.sh"@);
    }
    assert(parent_covered(plan, 32)) by {
        assert(("/ini/version.txt"@).subrange(0, 4) =~= "/ini"@);
        assert(is_dir_of("/ini"@, "/ini/version.txt"@));
        assert(is_dir_step(plan[2]) && step_path(plan[2]) == "/ini"@);
        assert(step_path(plan[32]) == "/ini/version.txt"@);
    }
    assert(parent_covered(plan, 33)) by {
        assert(("/ini/palettes"@).subrange(0, 4) =~= "/ini"@);
        assert(is_dir_of("/ini"@, "/ini/palettes"@));
        assert(is_dir_step(plan[2]) && step_path(plan[2]) == "/ini"@);
        assert(step_path(plan[33]) == "/ini/palettes"@);
    }
    assert(parent_covered(plan, 34)) by {
        assert(("/ini/palettes/gruvbox-dark.sh"@).subrange(0, 13) =~= "/ini/palettes"@);
        assert(is_dir_of("/ini/palettes"@, "/ini/palettes/gruvbox-dark.sh"@));
        assert(is_dir_step(plan[33]) && step_path(plan[33]) == "/ini/palettes"@);
        assert(step_path(plan[34]) == "/ini/palettes/gruvbox-dark.sh"@);
    }
    assert(parent_covered(plan, 35)) by {
        assert(("/ini/palettes/gruvbox-light.sh"@).subrange(0, 13) =~= "/ini/palettes"@);
        assert(is_dir_of("/ini/palettes"@, "/ini/palettes/gruvbox-light.sh"@));
        assert(is_dir_step(plan[33]) && step_path(plan[33]) == "/ini/palettes"@);
        assert(step_path(plan[35]) == "/ini/palettes/gruvbox-light.sh"@);
    }
    assert(parent_covered(plan, 36)) by {
        assert(("/ini/fonts"@).subrange(0, 4) =~= "/ini"@);
        assert(is_dir_of("/ini"@, "/ini/fonts"@));
        assert(is_dir_step(plan[2]) && step_path(plan[2]) == "/ini"@);
        assert(step_path(plan[36]) == "/ini/fonts"@);
    }
    assert(parent_covered(plan, 37)) by {
        assert(("/ini/fonts/zap-light-8x16.psf"@).subrange(0, 10) =~= "/ini/fonts"@);
        assert(is_dir_of("/ini/fonts"@, "/ini/fonts/zap-light-8x16.psf"@));
        assert(is_dir_step(plan[36]) && step_path(plan[36]) == "/ini/fonts"@);
        assert(step_path(plan[37]) == "/ini/fonts/zap-light-8x16.psf"@);
    }
    assert(parent_covered(plan, 38)) by {
        assert(("/ini/fonts/zap-vga-8x16.psf"@).subrange(0, 10) =~= "/ini/fonts"@);
        assert(is_dir_of("/ini/fonts"@, "/ini/fonts/zap-vga-8x16.psf"@));
        assert(is_dir_step(plan[36]) && step_path(plan[36]) == "/ini/fonts"@);
        assert(step_path(plan[38]) == "/ini/fonts/zap-vga-8x16.psf"@);
    }
    assert(parent_covered(plan, 39)) by {
        assert(("/tmp/alice.txt"@).subrange(0, 4) =~= "/tmp"@);
        assert(is_dir_of("/tmp"@, "/tmp/alice.txt"@));
        assert(is_dir_step(plan[6]) && step_path(plan[6]) == "/tmp"@);
        assert(step_path(plan[39]) == "/tmp/alice.txt"@);
    }
    assert(parent_covered(plan, 40)) by {
        assert(("/tmp/machines.txt"@).subrange(0, 4) =~= "/tmp"@);
        assert(is_dir_of("/tmp"@, "/tmp/machines.txt"@));
        assert(is_dir_step(plan[6]) && step_path(plan[6]) == "/tmp"@);
        assert(step_path(plan[40]) == "/tmp/machines.txt"@);
    }
    assert(parent_covered(plan, 41)) by {
        assert(("/tmp/beep"@).subrange(0, 4) =~= "/tmp"@);
        assert(is_dir_of("/tmp"@, "/tmp/beep"@));
        assert(is_dir_step(plan[6]) && step_path(plan[6]) == "/tmp"@);
        assert(step_path(plan[41]) == "/tmp/beep"@);
    }
    assert(parent_covered(plan, 42)) by {
        assert(("/tmp/beep/tetris.sh"@).subrange(0, 9) =~= "/tmp/beep"@);
        assert(is_dir_of("/tmp/beep"@, "/tmp/beep/tetris.sh"@));
        assert(is_dir_step(plan[41]) && step_path(plan[41]) == "/tmp/beep"@);
        assert(step_path(plan[42]) == "/tmp/beep/tetris.sh"@);
    }
    assert(parent_covered(plan, 43)) by {
        assert(("/tmp/beep/starwars.sh"@).subrange(0, 9) =~= "/tmp/beep"@);
        assert(is_dir_of("/tmp/beep"@, "/tmp/beep/starwars.sh"@));
        assert(is_dir_step(plan[41]) && step_path(plan[41]) == "/tmp/beep"@);
        assert(step_path(plan[43]) == "/tmp/beep/starwars.sh"@);
    }
    assert(parent_covered(plan, 44)) by {
        assert(("/tmp/beep/mario.sh"@).subrange(0, 9) =~= "/tmp/beep"@);
        assert(is_dir_of("/tmp/beep"@, "/tmp/beep/mario.sh"@));
        assert(is_dir_step(plan[41]) && step_path(plan[41]) == "/tmp/beep"@);
        assert(step_path(plan[44]) == "/tmp/beep/mario.sh"@);
    }
    assert forall|i: int| 0 <= i < plan.len() implies parent_covered(plan, i) by {
        if i == 0 { assert(parent_covered(plan, 0)); }
        else if i == 1 { assert(parent_covered(plan, 1)); }
        else if i == 2 { assert(parent_covered(plan, 2)); }
        else if i == 3 { assert(parent_covered(plan, 3)); }
        else if i == 4 { assert(parent_covered(plan, 4)); }
        else if i == 5 { assert(parent_covered(plan, 5)); }
        else if i == 6 { assert(parent_covered(plan, 6)); }
        else if i == 7 { assert(parent_covered(plan, 7)); }
        else if i == 8 { assert(parent_covered(plan, 8)); }
        else if i == 9 { assert(parent_covered(plan, 9)); }
        else if i == 10 { assert(parent_covered(plan, 10)); }
        else if i == 11 { assert(parent_covered(plan, 11)); }
        else if i == 12 { assert(parent_covered(plan, 12)); }
        else if i == 13 { assert(parent_covered(plan, 13)); }
        else if i == 14 { assert(parent_covered(plan, 14)); }
        else if i == 15 { assert(parent_covered(plan, 15)); }
        else if i == 16 { assert(parent_covered(plan, 16)); }
        else if i == 17 { assert(parent_covered(plan, 17)); }
        else if i == 18 { assert(parent_covered(plan, 18)); }
        else if i == 19 { assert(parent_covered(plan, 19)); }
        else if i == 20 { assert(parent_covered(plan, 20)); }
        else if i == 21 { assert(parent_covered(plan, 21)); }
        else if i == 22 { assert(parent_covered(plan, 22)); }
        else if i == 23 { assert(parent_covered(plan, 23)); }
        else if i == 24 { assert(parent_covered(plan, 24)); }
        else if i == 25 { assert(parent_covered(plan, 25)); }
        else if i == 26 { assert(parent_covered(plan, 26)); }
        else if i == 27 { assert(parent_covered(plan, 27)); }
        else if i == 28 { assert(parent_covered(plan, 28)); }
        else if i == 29 { assert(parent_covered(plan, 29)); }
        else if i == 30 { assert(parent_covered(plan, 30)); }
        else if i == 31 { assert(parent_covered(plan, 31)); }
        else if i == 32 { assert(parent_covered(plan, 32)); }
        else if i == 33 { assert(parent_covered(plan, 33)); }
        else if i == 34 { assert(parent_covered(plan, 34)); }
        else if i == 35 { assert(parent_covered(plan, 35)); }
        else if i == 36 { assert(parent_covered(plan, 36)); }
        else if i == 37 { assert(parent_covered(plan, 37)); }
        else if i == 38 { assert(parent_covered(plan, 38)); }
        else if i == 39 { assert(parent_covered(plan, 39)); }
        else if i == 40 { assert(parent_covered(plan, 40)); }
        else if i == 41 { assert(parent_covered(plan, 41)); }
        else if i == 42 { assert(parent_covered(plan, 42)); }
        else if i == 43 { assert(parent_covered(plan, 43)); }
        else if i == 44 { assert(parent_covered(plan, 44)); }
    }
}

} // verus!
