use catos_install::flow::{
    conclude_user, confirms, disk_choice, has_assume_yes, run_install, DiskTarget, ExitCode,
};
use catos_install::vfs::FileSystem;

fn assets() -> catos_install::install::Assets {
    catos_install::install::Assets {
        bin_clear: b"clear".to_vec(),
        bin_halt: b"halt".to_vec(),
        bin_print: b"print".to_vec(),
        ini_banner: b"CATOS v{x.x.x}\n".to_vec(),
        ini_boot: b"boot\n".to_vec(),
        ini_shell: b"shell\n".to_vec(),
        ini_version: b"{x.x.x}\n".to_vec(),
        palette_dark: b"dark\n".to_vec(),
        palette_light: b"light\n".to_vec(),
        font_light: b"font-l".to_vec(),
        font_vga: b"font-v".to_vec(),
        tmp_alice: b"alice\n".to_vec(),
        tmp_machines: b"machines\n".to_vec(),
        beep_tetris: b"tetris\n".to_vec(),
        beep_starwars: b"starwars\n".to_vec(),
        beep_mario: b"mario\n".to_vec(),
    }
}

#[test]
fn assume_yes_flag_is_found_in_any_position() {
    let args = vec!["install".to_string(), "-y".to_string()];
    assert!(has_assume_yes(&args));
    let args = vec!["install".to_string(), "--yes".to_string(), "x".to_string()];
    assert!(has_assume_yes(&args));
    let args = vec!["install".to_string()];
    assert!(!has_assume_yes(&args));
    let args = vec!["install".to_string(), "-yes".to_string()];
    assert!(!has_assume_yes(&args));
}

#[test]
fn only_exact_y_confirms() {
    assert!(confirms("y"));
    assert!(confirms("y\n"));
    assert!(confirms("y \t\r\n"));
    assert!(!confirms("Y"));
    assert!(!confirms("yes"));
    assert!(!confirms("n"));
    assert!(!confirms(""));
    assert!(!confirms(" y"));
}

#[test]
fn declined_confirmation_is_a_quiet_no_op() {
    let a = assets();
    let mut fs = FileSystem::new();
    let confirmed = confirms("n\n");
    let (res, events) = run_install(&mut fs, b"1.2.3", &a, confirmed, false, None);
    assert_eq!(res, Ok(()));
    assert!(events.is_empty());
    assert_eq!(fs.node_count(), 0);
}

#[test]
fn confirmed_input_proceeds_to_provisioning() {
    let a = assets();
    let mut fs = FileSystem::new();
    let confirmed = confirms("y\n");
    let (res, events) = run_install(&mut fs, b"1.2.3", &a, confirmed, true, None);
    assert_eq!(res, Ok(()));
    assert_eq!(events.len(), 45);
    assert_eq!(fs.node_count(), 45);
}

#[test]
fn format_failure_aborts_the_flow_unchanged() {
    let a = assets();
    let mut fs = FileSystem::new();
    let (res, events) = run_install(
        &mut fs,
        b"1.2.3",
        &a,
        true,
        false,
        Some(Err(ExitCode::Failure)),
    );
    assert_eq!(res, Err(ExitCode::Failure));
    assert!(events.is_empty());
    assert_eq!(fs.node_count(), 0);
}

#[test]
fn format_success_lets_provisioning_run() {
    let a = assets();
    let mut fs = FileSystem::new();
    let (res, events) = run_install(&mut fs, b"1.2.3", &a, true, false, Some(Ok(())));
    assert_eq!(res, Ok(()));
    assert_eq!(events.len(), 45);
}

#[test]
fn reserved_path_selects_the_memory_disk() {
    assert_eq!(disk_choice("/dev/mem\n"), DiskTarget::Memory);
    assert_eq!(disk_choice("/dev/mem"), DiskTarget::Memory);
    assert_eq!(
        disk_choice("/dev/ata/0/0\n"),
        DiskTarget::Disk("/dev/ata/0/0".to_string())
    );
}

#[test]
fn only_a_hard_user_creation_failure_aborts() {
    assert_eq!(conclude_user(false, None), Ok(()));
    assert_eq!(conclude_user(true, Some(Ok(()))), Ok(()));
    assert_eq!(conclude_user(true, Some(Err(ExitCode::UsageError))), Ok(()));
    assert_eq!(
        conclude_user(true, Some(Err(ExitCode::Failure))),
        Err(ExitCode::Failure)
    );
}

#[test]
fn exit_codes_follow_the_shared_taxonomy() {
    assert_eq!(ExitCode::Success.code(), 0);
    assert_eq!(ExitCode::Failure.code(), 1);
    assert_eq!(ExitCode::UsageError.code(), 64);
    assert_eq!(ExitCode::DataError.code(), 65);
}

#[test]
fn end_to_end_mounted_storage_and_missing_user() {
    let a = assets();
    let mut fs = FileSystem::new();
    let args: Vec<String> = vec!["install".to_string(), "-y".to_string()];
    let confirmed = has_assume_yes(&args);
    let (res, events) = run_install(&mut fs, b"1.2.3", &a, confirmed, true, None);
    assert_eq!(res, Ok(()));
    assert_eq!(events.len(), 45);
    // Nine top-level directories come first.
    let top: Vec<&str> = events
        .iter()
        .take(9)
        .map(|e| match e {
            catos_install::install::Event::Created(p) => p.as_str(),
            catos_install::install::Event::Copied(p) => p.as_str(),
        })
        .collect();
    assert_eq!(
        top,
        vec!["/bin", "/dev", "/ini", "/lib", "/net", "/src", "/tmp", "/usr", "/var"]
    );
    // No user account exists, its creation succeeds, the flow concludes well.
    let outcome = conclude_user(true, Some(Ok(())));
    assert_eq!(outcome, Ok(()));
}
