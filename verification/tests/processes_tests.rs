use c_drive_cleaner::processes::{find_process_references, process_uses, ProcessInfo};

fn process(name: &str, exe: Option<&str>, cmd: &[&str]) -> ProcessInfo {
    ProcessInfo {
        name: name.to_string(),
        exe: exe.map(|e| e.to_string()),
        cmd: cmd.iter().map(|c| c.to_string()).collect(),
    }
}

#[test]
fn processes_running_from_or_naming_a_location_are_listed_sorted_once() {
    let processes = vec![
        process("zeta.exe", Some(r"C:\Tools\App\zeta.exe"), &[]),
        process("alpha.exe", None, &[r"alpha.exe", r"--dir=C:\TOOLS\APP\data"]),
        process("zeta.exe", Some(r"C:/Tools/App/zeta.exe"), &[]),
        process("other.exe", Some(r"C:\Other\other.exe"), &["--x"]),
    ];
    let refs = find_process_references(r"C:\Tools\App", &processes);
    let names: Vec<String> = refs.into_iter().map(|r| r.process_name).collect();
    assert_eq!(names, vec!["alpha.exe".to_string(), "zeta.exe".to_string()]);
}

#[test]
fn command_lines_are_not_slash_normalized() {
    let candidate: Vec<char> = r"c:\tools".chars().collect();
    assert!(!process_uses(&process("p", None, &["C:/Tools/x"]), &candidate));
    assert!(process_uses(&process("p", Some("C:/Tools/x"), &[]), &candidate));
}

#[test]
fn no_process_no_reference() {
    assert!(find_process_references(r"C:\x", &vec![]).is_empty());
}
