use azula::config::base::{ScriptConfig, ScriptFile};
use azula::net::ip::IpAddress;
use azula::scripts::scripting::{
    chooses, has_tag, script_header, select_scripts, with_arguments, Script, ScriptError,
};
use azula::support::text::{
    digit_text, is_space, join, join_ports, port_text, trim, without_char,
};

fn lines(text: &str) -> Vec<String> {
    text.lines().map(str::to_owned).collect()
}

fn tagged(path: &str, tags: Option<Vec<&str>>) -> ScriptFile {
    ScriptFile {
        path: Some(path.to_owned()),
        tags: tags.map(|tags| tags.into_iter().map(str::to_owned).collect()),
        developer: None,
        port: None,
        ports_separator: None,
        call_format: None,
    }
}

fn config(tags: Option<Vec<&str>>) -> ScriptConfig {
    ScriptConfig {
        tags: tags.map(|tags| tags.into_iter().map(str::to_owned).collect()),
        ports: None,
        developer: None,
    }
}

fn script(call_format: Option<&str>) -> Script {
    Script::build(
        Some("fixtures/test_script.py".to_owned()),
        IpAddress::from_octets(127, 0, 0, 1),
        vec![80, 8080],
        None,
        Some(",".to_owned()),
        None,
        call_format.map(str::to_owned),
    )
}

#[test]
fn head_is_what_the_marked_lines_after_the_first_say() {
    let text = "#!/usr/bin/python3\n#tags = [\"core_approved\", \"example\"]\n#developer = [ \"example\", \"https://example.org\" ]\n#ports_separator = \",\"\n#call_format = \"python3 {{script}} {{ip}} {{port}}\"\n\nimport sys\n# not the head\n";
    assert_eq!(
        script_header(&lines(text)),
        "tags = [\"core_approved\", \"example\"]\ndeveloper = [ \"example\", \"https://example.org\" ]\nports_separator = \",\"\ncall_format = \"python3 {{script}} {{ip}} {{port}}\"\n"
    );
}

#[test]
fn head_leaves_out_every_mark_and_the_space_around() {
    let text = "first\n##  a = \"b#c\"  \t\n#\n# \n#x\nplain\n#late";
    assert_eq!(script_header(&lines(text)), "a = \"bc\"\n\n\nx\n");
}

#[test]
fn head_of_a_script_without_marked_lines_is_empty() {
    assert_eq!(script_header(&lines("")), "");
    assert_eq!(script_header(&lines("#only the first line")), "");
    assert_eq!(script_header(&lines("#!/bin/sh\necho\n#tags = []")), "");
    assert_eq!(script_header(&Vec::new()), "");
}

#[test]
fn scripts_are_chosen_by_their_tags() {
    let found = vec![
        tagged("a", Some(vec!["core_approved", "example"])),
        tagged("b", None),
        tagged("c", Some(vec!["example", "other"])),
        tagged("d", Some(vec![])),
        tagged("e", Some(vec!["example"])),
    ];
    let selected = select_scripts(found, &config(Some(vec!["example", "core_approved"])));
    let paths: Vec<String> = selected.into_iter().map(|script| script.path.unwrap()).collect();
    assert_eq!(paths, vec!["a", "d", "e"]);
}

#[test]
fn no_script_is_chosen_without_allowed_tags() {
    let found = vec![tagged("a", Some(vec!["x"])), tagged("d", Some(vec![]))];
    assert!(select_scripts(found, &config(None)).is_empty());
    let found = vec![tagged("a", Some(vec!["x"])), tagged("d", Some(vec![]))];
    let selected = select_scripts(found, &config(Some(vec![])));
    assert_eq!(selected.len(), 1);
    assert_eq!(selected[0].path, Some("d".to_owned()));
    assert!(select_scripts(Vec::new(), &config(Some(vec!["x"]))).is_empty());
}

#[test]
fn tags_are_compared_as_texts() {
    let allowed = vec!["example".to_owned(), "core".to_owned()];
    assert!(has_tag(&allowed, &"core".to_owned()));
    assert!(!has_tag(&allowed, &"Core".to_owned()));
    assert!(!has_tag(&allowed, &"cor".to_owned()));
    assert!(chooses(&allowed, &tagged("a", Some(vec!["core", "core"]))));
    assert!(!chooses(&allowed, &tagged("a", Some(vec!["core", "more"]))));
    assert!(!chooses(&allowed, &tagged("a", None)));
}

#[test]
fn command_fills_in_the_placeholders() {
    let command = script(Some("nmap -vvv -p {{port}} -{{ipversion}} {{ip}}")).command("127.0.0.1");
    assert_eq!(command, Ok("nmap -vvv -p 80,8080 -4 127.0.0.1".to_owned()));
    let command = script(Some("python3 {{script}} {{ip}} {{port}}")).command("127.0.0.1");
    assert_eq!(command, Ok("python3 fixtures/test_script.py 127.0.0.1 80,8080".to_owned()));
    let command = script(Some("{{ script }}|{{unknown}}|{{ip}}")).command("::1");
    assert_eq!(command, Ok("||::1".to_owned()));
    let command = script(Some("qwertyuiop")).command("127.0.0.1");
    assert_eq!(command, Ok("qwertyuiop".to_owned()));
}

#[test]
fn command_takes_the_ports_that_the_script_names() {
    let mut named = script(Some("{{port}}/{{ipversion}}"));
    named.trigger_port = Some("443".to_owned());
    named.ip = IpAddress::V6(1);
    assert_eq!(named.command("::1"), Ok("443/6".to_owned()));
}

#[test]
fn command_separates_the_ports_as_the_script_says() {
    let mut spaced = script(Some("{{port}}"));
    spaced.ports_separator = Some(" or ".to_owned());
    spaced.open_ports = vec![22, 80, 65_535];
    assert_eq!(spaced.command("10.0.0.1"), Ok("22 or 80 or 65535".to_owned()));
    spaced.ports_separator = None;
    assert_eq!(spaced.command("10.0.0.1"), Ok("22,80,65535".to_owned()));
    spaced.open_ports = vec![];
    assert_eq!(spaced.command("10.0.0.1"), Ok("".to_owned()));
}

#[test]
fn command_needs_a_call_format() {
    assert_eq!(script(None).command("127.0.0.1"), Err(ScriptError::MissingCallFormat));
}

#[test]
fn command_that_names_the_script_needs_its_path() {
    let mut pathless = script(Some("sh {{script}} {{ip}}"));
    pathless.path = None;
    assert_eq!(pathless.command("127.0.0.1"), Err(ScriptError::MissingPath));
    let mut pathless = script(Some("sh {{ip}}"));
    pathless.path = None;
    assert_eq!(pathless.command("127.0.0.1"), Ok("sh 127.0.0.1".to_owned()));
}

#[test]
fn trim_agrees_with_the_standard_trim() {
    let texts = [
        "", " ", "a", "  a b  ", "\t\r\n x \n", "\u{a0}x\u{3000}", "x\u{200b}", "\u{2003}\u{85}y z\u{2028}",
        "no space", " \u{1680}\u{205f}\u{202f} ",
    ];
    for text in texts {
        assert_eq!(trim(text), text.trim(), "{:?}", text);
    }
}

#[test]
fn is_space_agrees_with_the_standard_library() {
    for code in 0..0x3100u32 {
        if let Some(c) = char::from_u32(code) {
            assert_eq!(is_space(c), c.is_whitespace(), "{:x}", code);
        }
    }
    assert!(!is_space('\u{feff}'));
    assert!(!is_space('\u{10ffff}'));
}

#[test]
fn without_char_leaves_the_others_in_order() {
    assert_eq!(without_char("#a#b##c#", '#'), "abc");
    assert_eq!(without_char("abc", '#'), "abc");
    assert_eq!(without_char("###", '#'), "");
    assert_eq!(without_char("", '#'), "");
    assert_eq!(without_char("a-b", '-'), "ab");
}

#[test]
fn ports_are_written_in_decimal() {
    assert_eq!(port_text(0), "0");
    assert_eq!(port_text(7), "7");
    assert_eq!(port_text(80), "80");
    assert_eq!(port_text(1000), "1000");
    assert_eq!(port_text(65_535), "65535");
    for port in [9u16, 10, 99, 100, 101, 9999, 10_000, 60_006] {
        assert_eq!(port_text(port), port.to_string());
    }
    assert_eq!(digit_text(0), "0");
    assert_eq!(digit_text(9), "9");
}

#[test]
fn ports_are_joined_by_the_separator() {
    assert_eq!(join_ports(&vec![80, 8080], ","), "80,8080");
    assert_eq!(join_ports(&vec![80], ","), "80");
    assert_eq!(join_ports(&vec![], ","), "");
    assert_eq!(join_ports(&vec![1, 2, 3], ""), "123");
    assert_eq!(join_ports(&vec![1, 2, 3], ", "), "1, 2, 3");
}

#[test]
fn call_is_followed_by_what_the_user_hands_on() {
    let command = vec!["-A".to_owned(), "-sC".to_owned()];
    assert_eq!(
        with_arguments(Some("nmap {{ip}}".to_owned()), &command),
        Some("nmap {{ip}} -A -sC".to_owned())
    );
    assert_eq!(with_arguments(Some("nmap {{ip}}".to_owned()), &vec![]), Some("nmap {{ip}}".to_owned()));
    assert_eq!(with_arguments(None, &command), None);
    assert_eq!(with_arguments(Some("".to_owned()), &vec!["x".to_owned()]), Some(" x".to_owned()));
}

#[test]
fn texts_are_joined_by_the_separator() {
    let texts = vec!["a".to_owned(), "".to_owned(), "b c".to_owned()];
    assert_eq!(join(&texts, " "), texts.join(" "));
    assert_eq!(join(&texts, ", "), "a, , b c");
    assert_eq!(join(&vec!["only".to_owned()], ","), "only");
    assert_eq!(join(&vec![], ","), "");
}
