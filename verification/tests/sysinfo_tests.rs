use vstabs::sysinfo::{parse_ssh_aliases, parse_wsl_list, trimmed_lines};

#[test]
fn ssh_aliases_from_a_config() {
    let config = "\
# personal hosts
Host my-cloud-host gpu-box
    HostName 10.0.0.1
    User ubuntu

host\tlowercase-alias
HOST Upper *.wildcard !negated one?
Hostname not-a-host-line
  Host   indented   gpu-box  
#Host commented
Host
Host my-cloud-host
";
    assert_eq!(
        parse_ssh_aliases(config),
        vec!["my-cloud-host", "gpu-box", "lowercase-alias", "Upper", "indented"]
    );
}

#[test]
fn ssh_aliases_with_crlf_and_no_final_newline() {
    assert_eq!(parse_ssh_aliases("Host a b\r\nHost c\r\nHost d"), vec!["a", "b", "c", "d"]);
}

#[test]
fn ssh_aliases_of_empty_config() {
    assert!(parse_ssh_aliases("").is_empty());
    assert!(parse_ssh_aliases("\n\n# only comments\n").is_empty());
}

#[test]
fn ssh_aliases_never_repeat_and_skip_patterns() {
    let out = parse_ssh_aliases("Host a a b\nHost b * ?x !c d\n");
    assert_eq!(out, vec!["a", "b", "d"]);
}

#[test]
fn trimmed_lines_drop_blank_ones() {
    assert_eq!(trimmed_lines("  Ubuntu \r\n\r\n Debian\n   \n"), vec!["Ubuntu", "Debian"]);
    assert!(trimmed_lines("").is_empty());
}

fn utf16le_with_bom(s: &str) -> Vec<u8> {
    let mut v = vec![0xFF, 0xFE];
    for u in s.encode_utf16() {
        v.extend_from_slice(&u.to_le_bytes());
    }
    v
}

#[test]
fn wsl_list_in_utf16_with_bom() {
    let raw = utf16le_with_bom("Ubuntu\r\nDebian\r\n\r\n");
    assert_eq!(parse_wsl_list(&raw), vec!["Ubuntu", "Debian"]);
}

#[test]
fn wsl_list_in_utf16_with_odd_trailing_byte() {
    let mut raw = utf16le_with_bom("Ubuntu-22.04\r\n");
    raw.push(0x41);
    assert_eq!(parse_wsl_list(&raw), vec!["Ubuntu-22.04"]);
}

#[test]
fn wsl_list_with_unpaired_surrogate() {
    let mut raw = vec![0xFF, 0xFE];
    for u in [0x0041u16, 0xD800, 0x0042] {
        raw.extend_from_slice(&u.to_le_bytes());
    }
    assert_eq!(parse_wsl_list(&raw), vec!["A\u{FFFD}B"]);
}

#[test]
fn wsl_list_in_utf8() {
    assert_eq!(parse_wsl_list(b"Ubuntu\nkali-linux\n"), vec!["Ubuntu", "kali-linux"]);
    assert_eq!(parse_wsl_list(b"bad\xFFname\n"), vec!["bad\u{FFFD}name"]);
    assert!(parse_wsl_list(b"").is_empty());
}
