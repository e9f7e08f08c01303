use line_reactor::protocol::{clean_line_exec, get_name, split_command, split_lines};

#[test]
fn split_command_handshake() {
    let (command, argument) = split_command(b"name GREEN");
    assert_eq!(command, b"name".to_vec());
    assert_eq!(argument, b"GREEN".to_vec());
}

#[test]
fn split_command_trims_nulls_and_whitespace() {
    let (command, argument) = split_command(b"\0 name \0 GREEN \0\r");
    assert_eq!(command, b"name".to_vec());
    assert_eq!(argument, b"GREEN".to_vec());
}

#[test]
fn split_command_without_space() {
    let (command, argument) = split_command(b"keepalive");
    assert_eq!(command, b"keepalive".to_vec());
    assert_eq!(argument, b"".to_vec());
}

#[test]
fn split_command_empty_line() {
    let (command, argument) = split_command(b"");
    assert_eq!(command, b"".to_vec());
    assert_eq!(argument, b"".to_vec());
}

#[test]
fn split_command_argument_keeps_inner_spaces() {
    let (command, argument) = split_command(b"echo will sleep for 2 sec");
    assert_eq!(command, b"echo".to_vec());
    assert_eq!(argument, b"will sleep for 2 sec".to_vec());
}

#[test]
fn clean_line_removes_embedded_nulls() {
    assert_eq!(clean_line_exec(b" \0 x\0y \0 "), b"xy".to_vec());
    assert_eq!(clean_line_exec(b"\0\0"), b"".to_vec());
    assert_eq!(clean_line_exec(b"  \t\r  "), b"".to_vec());
}

#[test]
fn get_name_accepts_handshake() {
    let mut name = b"unnamed".to_vec();
    assert!(get_name(b"name GREEN", &mut name));
    assert_eq!(name, b"GREEN".to_vec());
}

#[test]
fn get_name_rejects_other_commands() {
    let mut name = b"unnamed".to_vec();
    assert!(!get_name(b"echo hello", &mut name));
    assert_eq!(name, b"unnamed".to_vec());
}

#[test]
fn split_lines_complete_and_partial() {
    let lines = split_lines(b"a\nb");
    assert_eq!(lines, vec![b"a".to_vec(), b"b".to_vec()]);
    let lines = split_lines(b"a\nb\n");
    assert_eq!(lines, vec![b"a".to_vec(), b"b".to_vec()]);
}

#[test]
fn split_lines_edges() {
    assert_eq!(split_lines(b""), Vec::<Vec<u8>>::new());
    assert_eq!(split_lines(b"\n"), vec![b"".to_vec()]);
    assert_eq!(
        split_lines(b"a\n\nb"),
        vec![b"a".to_vec(), b"".to_vec(), b"b".to_vec()]
    );
}
