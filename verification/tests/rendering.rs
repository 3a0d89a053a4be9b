use sshp4ru::bytes::{parse_dec_cap, u64_to_dec};
use sshp4ru::config::{Config, SshOpts};
use sshp4ru::stream::{
    output_join_buf, output_line_buf, process_join_chunk, process_line_chunk, PipeType,
};

fn args(list: &[&str]) -> Vec<Vec<u8>> {
    list.iter().map(|s| s.as_bytes().to_vec()).collect()
}

#[test]
fn decimal_rendering_and_parsing() {
    assert_eq!(u64_to_dec(0), b"0".to_vec());
    assert_eq!(u64_to_dec(50417), b"50417".to_vec());
    assert_eq!(parse_dec_cap(b"65535", 0xffff), Some(65535));
    assert_eq!(parse_dec_cap(b"65536", 0xffff), None);
    assert_eq!(parse_dec_cap(b"", 0xffff), None);
    assert_eq!(parse_dec_cap(b"12x", 0xffff), None);
}

#[test]
fn line_mode_caps_lines_at_max_plus_terminator() {
    let mut buf: Vec<u8> = Vec::new();
    // cap of 4: seven bytes with no newline force-emit one full line
    let out = process_line_chunk(&mut buf, b"abcdefg", 4, b"h", PipeType::StdOut, true, false);
    assert_eq!(out, b"abcd\n".to_vec());
    assert_eq!(buf, b"efg".to_vec());
    let flush = output_line_buf(&mut buf, b"h", PipeType::StdOut, true, false);
    assert_eq!(flush, b"efg\n".to_vec());
    assert!(buf.is_empty());
}

#[test]
fn line_mode_sanitizes_and_prefixes() {
    let mut buf: Vec<u8> = Vec::new();
    let out = process_line_chunk(
        &mut buf,
        b"ok \xc3\xa9\n",
        1024,
        b"web1",
        PipeType::StdOut,
        false,
        false,
    );
    assert_eq!(out, b"[web1] ok ??\n".to_vec());
}

#[test]
fn join_mode_output_capped() {
    let mut buf: Vec<u8> = Vec::new();
    process_join_chunk(&mut buf, b"0123456789", 6);
    assert_eq!(buf, b"012345".to_vec());
    // at the cap: no newline is appended, the cap holds
    let out = output_join_buf(&mut buf, 6);
    assert_eq!(out, b"012345".to_vec());

    let mut buf2: Vec<u8> = Vec::new();
    process_join_chunk(&mut buf2, b"abc", 6);
    let out2 = output_join_buf(&mut buf2, 6);
    assert_eq!(out2, b"abc\n".to_vec());

    let mut buf3: Vec<u8> = Vec::new();
    let out3 = output_join_buf(&mut buf3, 6);
    assert_eq!(out3, b"".to_vec(), "an empty accumulation stays empty");
}

#[test]
fn ssh_command_construction() {
    let a = args(&[
        "-l", "deploy", "-p", "2222", "-q", "-o", "Batchmode=yes", "-f", "hosts", "uptime",
    ]);
    let conf = Config::new(&a, false).unwrap();
    let cmd = conf
        .ssh_options
        .build_ssh_command(b"web1", &conf.remote_command)
        .unwrap();
    assert_eq!(cmd, b"ssh -l deploy -p 2222 -q -o Batchmode=yes web1  uptime".to_vec());
}

#[test]
fn ssh_command_length_capped() {
    let opts = SshOpts::default();
    let long = vec![b'x'; 300];
    let remote = vec![long];
    let e = opts.build_ssh_command(b"h", &remote).err().unwrap();
    let msg = String::from_utf8(e.message()).unwrap();
    assert!(msg.contains("exceeds max args"));
    assert_eq!(e.exit_code(), 2);
}

#[test]
fn defaults_and_color_resolution() {
    let a = args(&["-f", "hosts", "true"]);
    let c = Config::new(&a, false).unwrap();
    assert_eq!(c.max_jobs, 50);
    assert_eq!(c.max_line_length, 1024);
    assert_eq!(c.max_output_length, 8192);
    assert_eq!(c.mode(), "LINE");
    assert_eq!(c.color(), "off", "auto without a terminal is off");
    let c2 = Config::new(&a, true).unwrap();
    assert_eq!(c2.color(), "auto");
    assert!(c2.colorize());
    let bad = args(&["-c", "blue", "-f", "hosts", "true"]);
    let e = Config::new(&bad, false).err().unwrap();
    let msg = String::from_utf8(e.message()).unwrap();
    assert!(msg.contains("invalid value for `-c`: blue"));
}
