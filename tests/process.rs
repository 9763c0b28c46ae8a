use procmem::{
    find_by_suffix, image_name, name_ends_with, open_begin, open_next, pids_from_buffer,
    readable_candidates, transfer_outcome, MemoryError, OpenAction, OpenError, SysReply,
};

fn reply(ok: bool, value: u64, code: u32) -> SysReply {
    SysReply { ok, value, code }
}

fn wide(text: &str) -> Vec<u16> {
    text.encode_utf16().collect()
}

#[test]
fn candidates_skip_idle_and_duplicates() {
    assert_eq!(readable_candidates(&[0, 4, 8, 4, 0, 12, 8]), vec![4, 8, 12]);
    assert_eq!(readable_candidates(&[0]), Vec::<u32>::new());
    assert_eq!(readable_candidates(&[]), Vec::<u32>::new());
    assert_eq!(readable_candidates(&[7, 3, 5]), vec![7, 3, 5]);
}

#[test]
fn pids_from_buffer_truncates_to_written() {
    let buffer = vec![0, 4, 8, 12, 16, 20];
    assert_eq!(pids_from_buffer(buffer.clone(), 12), (vec![0, 4, 8], false));
    assert_eq!(pids_from_buffer(buffer.clone(), 24), (buffer.clone(), true));
    assert_eq!(pids_from_buffer(buffer.clone(), 14), (vec![0, 4, 8], false));
    assert_eq!(pids_from_buffer(buffer, 0), (vec![], false));
}

#[test]
fn transfer_outcomes() {
    assert_eq!(transfer_outcome(true, 8, 8, 0), Ok(()));
    assert_eq!(transfer_outcome(false, 0, 8, 299), Err(MemoryError::Address { code: 299 }));
    assert_eq!(
        transfer_outcome(true, 4, 8, 0),
        Err(MemoryError::Partial { transferred: 4, requested: 8 })
    );
}

#[test]
fn exited_process_read_is_an_error_not_zeros() {
    // a read against a process that has exited fails at the system call
    assert_eq!(transfer_outcome(false, 0, 1024, 5), Err(MemoryError::Address { code: 5 }));
}

#[test]
fn image_name_truncates_or_fails() {
    let mut buffer = wide("\\Device\\notepad.exe");
    let n = buffer.len() as u32;
    buffer.resize(1024, 0);
    assert_eq!(image_name(buffer.clone(), n, 0), Ok(wide("\\Device\\notepad.exe")));
    assert_eq!(image_name(buffer, 0, 31), Err(MemoryError::Environment { code: 31 }));
}

#[test]
fn open_protocol_success() {
    let a = open_begin(42);
    assert_eq!(a, OpenAction::RequestHandle { pid: 42 });
    let a = open_next(a, reply(true, 0, 0));
    assert_eq!(a, OpenAction::ListModules);
    let a = open_next(a, reply(true, 8, 0));
    assert_eq!(a, OpenAction::QueryModule);
    let a = open_next(a, reply(true, 0x7ff6_0000_0000, 0));
    assert_eq!(a, OpenAction::Opened { base_address: 0x7ff6_0000_0000 });
}

#[test]
fn open_protocol_failures() {
    let a = open_next(open_begin(4), reply(false, 0, 5));
    assert_eq!(a, OpenAction::Failed { error: OpenError::Denied { code: 5 } });
    let a = open_next(OpenAction::ListModules, reply(false, 0, 299));
    assert_eq!(a, OpenAction::Failed { error: OpenError::BaseAddress { code: 299 } });
    let a = open_next(OpenAction::ListModules, reply(true, 0, 0));
    assert_eq!(a, OpenAction::Failed { error: OpenError::NoModules });
    let a = open_next(OpenAction::QueryModule, reply(false, 0, 6));
    assert_eq!(a, OpenAction::Failed { error: OpenError::BaseAddress { code: 6 } });
}

#[test]
fn name_suffix_matching() {
    let name = wide("\\Device\\HarddiskVolume3\\Windows\\System32\\notepad.exe");
    assert!(name_ends_with(&name, &wide("Windows\\System32\\notepad.exe")));
    assert!(name_ends_with(&name, &wide(".exe")));
    assert!(name_ends_with(&name, &[]));
    assert!(!name_ends_with(&name, &wide("notepad.ex")));
    assert!(!name_ends_with(&wide(".exe"), &wide("a.exe")));
}

#[test]
fn find_first_matching_name() {
    let names = vec![wide("C:\\a\\calc.exe"), wide("C:\\b\\notepad.exe"), wide("C:\\c\\notepad.exe")];
    assert_eq!(find_by_suffix(&names, &wide("notepad.exe")), Some(1));
    assert_eq!(find_by_suffix(&names, &wide("paint.exe")), None);
    assert_eq!(find_by_suffix(&vec![], &wide("x")), None);
}
