use sshp4ru::config::Config;
use sshp4ru::errors::ParseError;
use sshp4ru::hosts::parse_hosts;

fn args(list: &[&str]) -> Vec<Vec<u8>> {
    list.iter().map(|s| s.as_bytes().to_vec()).collect()
}

#[test]
fn port_out_of_range_is_rejected() {
    let a = args(&["-p", "70000", "-f", "hosts", "true"]);
    let e = Config::new(&a, false).err().expect("port 70000 must be rejected");
    assert!(matches!(e, ParseError::ParsePortError));
    assert_eq!(e.exit_code(), 2);
    let msg = String::from_utf8(e.message()).unwrap();
    assert!(msg.contains("-p"));
}

#[test]
fn group_and_join_conflict() {
    let a = args(&["-g", "-j", "-f", "hosts", "true"]);
    let e = Config::new(&a, false).err().unwrap();
    assert!(matches!(e, ParseError::GroupJoinConflict));
}

#[test]
fn empty_remote_command_needs_exec() {
    let a = args(&["-f", "hosts"]);
    let e = Config::new(&a, false).err().unwrap();
    assert!(matches!(e, ParseError::ArgCount));
    let ok = args(&["-f", "hosts", "-x", "/bin/true"]);
    let c = Config::new(&ok, false).unwrap();
    assert_eq!(c.exec_path, Some(b"/bin/true".to_vec()));
}

#[test]
fn hostname_length_boundary() {
    let mut data = vec![b'a'; 254];
    data.push(b'\n');
    let hosts = parse_hosts(&data).unwrap();
    assert_eq!(hosts.len(), 1);
    assert_eq!(hosts[0].hostname().len(), 254);

    let mut data = vec![b'a'; 255];
    data.push(b'\n');
    let e = parse_hosts(&data).err().unwrap();
    assert!(matches!(e, ParseError::HostnameTooLong(1, 255, _)));
}

#[test]
fn missing_final_newline_is_format_error() {
    let e = parse_hosts(b"alpha\nbeta").err().unwrap();
    assert!(matches!(e, ParseError::HostFileFormatError(2, _)));
}

#[test]
fn all_lines_skipped_yields_no_hosts() {
    let hosts = parse_hosts(b"# one\n# two\n\n").unwrap();
    assert!(hosts.is_empty(), "the caller must then refuse the run");
}

#[test]
fn comments_and_blanks_are_skipped() {
    let hosts = parse_hosts(b"# note\n\nalpha\n beta\ngamma\n").unwrap();
    let names: Vec<&[u8]> = hosts.iter().map(|h| h.hostname().as_slice()).collect();
    assert_eq!(names, vec![b"alpha".as_slice(), b"gamma".as_slice()]);
}
