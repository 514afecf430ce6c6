use rustbot::irc::{Action, Irc, IrcConfig, State};
use rustbot::message::{same_text, IrcMsg};
use rustbot::reactor::{collect_replies, command_of, trim_line, ReactorError, Registry};
use rustbot::writer::{identify, join, pong, privmsg};

type Bot = Irc<u8, u8>;

fn config(channels: &[&str], blacklist: &[&str]) -> IrcConfig {
    IrcConfig {
        host: "irc.example.org".to_string(),
        port: 6667,
        channels: channels.iter().map(|c| c.to_string()).collect(),
        nick: "rustbot".to_string(),
        descr: "a bot".to_string(),
        blacklist: blacklist.iter().map(|c| c.to_string()).collect(),
    }
}

fn active(channels: &[&str], blacklist: &[&str]) -> Bot {
    let mut irc: Bot = Irc::connect(config(channels, blacklist));
    irc.start();
    irc
}

fn sends(actions: &[Action]) -> Vec<String> {
    actions
        .iter()
        .filter_map(|a| match a {
            Action::Send(s) => Some(s.clone()),
            _ => None,
        })
        .collect()
}

fn prints(actions: &[Action]) -> Vec<String> {
    actions
        .iter()
        .filter_map(|a| match a {
            Action::Print(s) => Some(s.clone()),
            _ => None,
        })
        .collect()
}

fn some_msg(s: &str, prefix: &str, code: &str, param: &str) {
    match IrcMsg::new(s) {
        Some(x) => {
            assert_eq!(x.prefix, prefix.to_string());
            assert_eq!(x.code, code.to_string());
            assert_eq!(x.param, param.to_string());
        }
        None => panic!("Did not match {}", s),
    }
}

fn none_msg(s: &str) {
    match IrcMsg::new(s) {
        Some(_) => panic!("Matched {}", s),
        None => (),
    }
}

fn test_cb_match(f: fn(&str) -> Option<String>, s: &str, expected: &str) {
    match f(s) {
        Some(got) => assert_eq!(got, expected.to_string()),
        None => panic!("None"),
    }
}

fn test_cb_none(f: fn(&str) -> Option<String>, s: &str) {
    match f(s) {
        Some(_) => panic!("Some"),
        None => (),
    }
}

#[test]
fn msg() {
    some_msg(":pref 020 rustbot lblblb", ":pref", "020", "rustbot lblblb");
    some_msg("020 rustbot lblblb", "", "020", "rustbot lblblb");
    some_msg(
        ":dreamhack.se.quakenet.org 376 rustbot :End of /MOTD command",
        ":dreamhack.se.quakenet.org",
        "376",
        "rustbot :End of /MOTD command",
    );
    none_msg("a");
}

#[test]
fn msg_edges() {
    some_msg("PING :x\r", "", "PING", ":x");
    some_msg("NOTICE   spaced  out", "", "NOTICE", "spaced  out");
    some_msg("PING ", "", "PING", "");
    none_msg("");
    none_msg("PING");
    none_msg(": 020 x");
    none_msg(":abc def");
    none_msg("12 x");
    none_msg("0203 x");
    none_msg("PR1V x");
}

#[test]
fn msg_keeps_line() {
    let m = IrcMsg::new(":a JOIN #c").unwrap();
    assert_eq!(m.orig, ":a JOIN #c");
}

#[test]
fn parse_twice_same() {
    let a = IrcMsg::new(":p 001 me :hi").unwrap();
    let b = IrcMsg::new(":p 001 me :hi").unwrap();
    assert_eq!((a.prefix, a.code, a.param), (b.prefix, b.code, b.param));
}

#[test]
fn ping_reactor() {
    test_cb_match(rustbot::reactor::ping, "PING :423131321", "PONG :423131321");
    test_cb_none(rustbot::reactor::ping, "JOIN :asdf");
    test_cb_none(ping_fn(), "PING");
    test_cb_none(ping_fn(), "PING ");
    test_cb_none(ping_fn(), "PINGX :a");
    test_cb_match(ping_fn(), "PING\tt", "PONG t");
}

fn ping_fn() -> fn(&str) -> Option<String> {
    rustbot::reactor::ping
}

#[test]
fn writer_lines() {
    assert_eq!(join("#rust"), "JOIN #rust");
    assert_eq!(privmsg("#rust", "hi there"), "PRIVMSG #rust :hi there");
    assert_eq!(pong(":tok"), "PONG :tok");
    assert_eq!(identify("bot", "a bot"), vec!["NICK bot".to_string(), "USER bot 0 * :a bot".to_string()]);
}

#[test]
fn trims_lines() {
    assert_eq!(trim_line("  PING :x \r\n"), "PING :x");
    assert_eq!(trim_line(" \r\n"), "");
    assert_eq!(trim_line("a"), "a");
}

#[test]
fn compares_text() {
    assert!(same_text("004", "004"));
    assert!(!same_text("004", "005"));
    assert!(!same_text("004", "0040"));
}

#[test]
fn identify_on_start() {
    let mut irc: Bot = Irc::connect(config(&["#a"], &[]));
    assert_eq!(irc.current_state(), State::Connecting);
    let a = irc.start();
    assert_eq!(sends(&a), vec!["NICK rustbot".to_string(), "USER rustbot 0 * :a bot".to_string()]);
    assert_eq!(irc.current_state(), State::Identifying);
    assert!(irc.start().is_empty());
    assert_eq!(irc.host_name(), "irc.example.org");
    assert_eq!(irc.port_number(), 6667);
}

#[test]
fn keepalive() {
    let mut irc = active(&[], &[]);
    let a = irc.handle_received("PING :abc123", &vec![]);
    assert_eq!(sends(&a), vec!["PONG :abc123".to_string()]);
    assert_eq!(prints(&a), vec!["< PING :abc123".to_string()]);
}

#[test]
fn keepalive_without_token() {
    let mut irc = active(&[], &[]);
    let a = irc.handle_received("PING\r\n", &vec![]);
    assert!(sends(&a).is_empty());
    assert_eq!(prints(&a), vec!["<! PING".to_string()]);
}

#[test]
fn joins_on_welcome() {
    let mut irc = active(&["#a", "#b"], &[]);
    let a = irc.handle_received(":srv 004 nick :welcome", &vec![]);
    assert_eq!(sends(&a), vec!["JOIN #a".to_string(), "JOIN #b".to_string()]);
    assert_eq!(irc.current_state(), State::Active);
    let again = irc.handle_received(":srv 004 nick :welcome", &vec![]);
    assert!(sends(&again).is_empty());
    assert_eq!(prints(&again), vec!["< :srv 004 nick :welcome".to_string()]);
}

#[test]
fn no_join_on_other_codes() {
    let mut irc = active(&["#a"], &[]);
    let a = irc.handle_received(":srv 005 nick :more", &vec![]);
    assert!(sends(&a).is_empty());
    assert_eq!(irc.current_state(), State::Identifying);
}

#[test]
fn blacklist_hides_codes() {
    let mut irc = active(&[], &["376", "372"]);
    let a = irc.handle_received(":srv 376 rustbot :End of /MOTD command", &vec![]);
    assert!(prints(&a).is_empty());
    let b = irc.handle_received(":srv 375 rustbot :Start", &vec![]);
    assert_eq!(prints(&b), vec!["< :srv 375 rustbot :Start".to_string()]);
}

#[test]
fn failing_reactor_does_not_block_others() {
    let mut irc = active(&[], &[]);
    let results = vec![Err(ReactorError { message: "boom".to_string() }), Ok(Some("ok".to_string()))];
    let a = irc.handle_received("anything goes here", &results);
    assert_eq!(sends(&a), vec!["ok".to_string()]);
    assert_eq!(prints(&a), vec!["!! boom".to_string(), "< anything goes here".to_string()]);
}

#[test]
fn unicode_whitespace() {
    test_cb_match(ping_fn(), "PING\u{a0}x", "PONG x");
    test_cb_match(ping_fn(), "PING\u{3000}tok", "PONG tok");
    assert_eq!(trim_line("\u{a0}PING :x\u{2028}"), "PING :x");
    some_msg(":p\u{a0}020\u{2003}a b", ":p", "020", "a b");
    let mut plain = active(&[], &[]);
    let mut spaced = active(&[], &[]);
    let a = plain.handle_received("PING :x", &vec![]);
    let b = spaced.handle_received("\u{a0}PING :x\r\n", &vec![]);
    assert_eq!(sends(&a), sends(&b));
    assert_eq!(prints(&a), prints(&b));
    assert_eq!(sends(&b), vec!["PONG :x".to_string()]);
}

#[test]
fn newline_in_params_rejected() {
    none_msg("020 a\nb");
    test_cb_none(ping_fn(), "PING a\nb");
}

#[test]
fn replies_in_order() {
    let results = vec![
        Ok(Some("one".to_string())),
        Ok(None),
        Ok(Some(String::new())),
        Err(ReactorError { message: "x".to_string() }),
        Ok(Some("two".to_string())),
    ];
    assert_eq!(collect_replies(&results), vec!["one".to_string(), "two".to_string()]);
    assert!(collect_replies(&vec![]).is_empty());
}

#[test]
fn output_is_logged_then_written() {
    let mut irc = active(&[], &[]);
    let a = irc.handle_output("JOIN #a");
    assert_eq!(a.len(), 2);
    match (&a[0], &a[1]) {
        (Action::Print(p), Action::Write(w)) => {
            assert_eq!(p, "> JOIN #a");
            assert_eq!(w, "JOIN #a");
        }
        _ => panic!("unexpected actions"),
    }
    irc.quit();
    assert_eq!(irc.current_state(), State::Draining);
    assert!(irc.handle_received("PING :x", &vec![]).is_empty());
    assert_eq!(irc.handle_output("QUIT").len(), 2);
    irc.stop();
    assert_eq!(irc.current_state(), State::Stopped);
    assert!(irc.handle_output("QUIT").is_empty());
    irc.quit();
    assert_eq!(irc.current_state(), State::Stopped);
}

#[test]
fn command_text_split() {
    assert_eq!(command_of(".insult bob"), Some(("insult".to_string(), "bob".to_string())));
    assert_eq!(command_of(".help"), Some(("help".to_string(), String::new())));
    assert_eq!(command_of(".say  a b"), Some(("say".to_string(), "a b".to_string())));
    assert_eq!(command_of("hello"), None);
    assert_eq!(command_of("."), None);
    assert_eq!(command_of(". x"), None);
}

#[test]
fn registry_order_and_lookup() {
    let mut r: Registry<u8, u8> = Registry::new();
    r.register_raw(1);
    r.register_command("help".to_string(), 2);
    r.register_raw(3);
    r.register_command("help".to_string(), 4);
    assert_eq!(r.len(), 4);
    assert_eq!(r.raw_indices(), vec![0, 2]);
    assert_eq!(r.find_command("help"), Some(3));
    assert_eq!(r.find_command("nope"), None);
    assert_eq!(r.raw(0), Some(&1));
    assert_eq!(r.raw(1), None);
    assert_eq!(r.command(3), Some(&4));
}

#[test]
fn command_requests() {
    let mut irc = active(&[], &[]);
    irc.register_command("insult".to_string(), 1);
    irc.register_raw(7);
    irc.register_command("insult".to_string(), 2);
    let v = irc.command_request(":nick!u@h PRIVMSG #chan :.insult bob").unwrap();
    assert_eq!(v.index, 2);
    assert_eq!(v.sender, ":nick!u@h");
    assert_eq!(v.target, "#chan");
    assert_eq!(v.arg, "bob");
    assert!(irc.command_request(":nick!u@h PRIVMSG #chan :.other bob").is_none());
    assert!(irc.command_request(":nick!u@h PRIVMSG #chan :hello").is_none());
    assert!(irc.command_request(":nick!u@h NOTICE #chan :.insult bob").is_none());
    assert_eq!(irc.registry().raw_indices(), vec![1]);
}
