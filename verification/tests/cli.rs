use rushdb::cli::{Commands, ShellHelper};
use rushdb::protocol::ReqType;

#[test]
fn commands_send_their_requests() {
    let (op, k, v) = Commands::Get { key: "a".into() }.request();
    assert_eq!((op, k, v), (ReqType::GET, Some("a".to_string()), None));
    let (op, k, v) = Commands::Put { key: "a".into(), value: "b".into() }.request();
    assert_eq!((op, k, v), (ReqType::SET, Some("a".to_string()), Some("b".to_string())));
    let (op, k, v) = Commands::Del { key: "a".into() }.request();
    assert_eq!((op, k, v), (ReqType::DEL, Some("a".to_string()), None));
    let (op, k, v) = Commands::Exists { key: "a".into() }.request();
    assert_eq!((op, k, v), (ReqType::EXISTS, Some("a".to_string()), None));
    let (op, k, v) = Commands::Total.request();
    assert_eq!((op, k, v), (ReqType::TOTAL, None, None));
}

#[test]
fn reply_lines() {
    let get = Commands::Get { key: "a".into() };
    assert_eq!(get.reply_line(Some("v".into())), Some("v".to_string()));
    assert_eq!(get.reply_line(None), Some("DONT EXISTS".to_string()));
    let set = Commands::Put { key: "a".into(), value: "b".into() };
    assert_eq!(set.reply_line(None), Some("DONE".to_string()));
    let del = Commands::Del { key: "a".into() };
    assert_eq!(del.reply_line(None), Some("DONE".to_string()));
    assert_eq!(Commands::Exists { key: "a".into() }.reply_line(None), None);
    assert_eq!(Commands::Total.reply_line(None), None);
    assert_eq!(Commands::Total.reply_line(Some("3".into())), Some("3".to_string()));
}

#[test]
fn completions_filter_by_prefix() {
    let h = ShellHelper;
    assert_eq!(
        h.completions("e"),
        vec![("exists <key>".to_string(), "exists".to_string())]
    );
    assert_eq!(h.completions("").len(), 5);
    assert_eq!(h.completions("").first(), Some(&("get <key>".to_string(), "get".to_string())));
    assert!(h.completions("x").is_empty());
    assert!(h.completions("gets").is_empty());
}

#[test]
fn hints_complete_usage() {
    let h = ShellHelper;
    assert_eq!(h.hint("se"), Some("t <key> <value>".to_string()));
    assert_eq!(h.hint("get"), Some(" <key>".to_string()));
    assert_eq!(h.hint("total"), Some(String::new()));
    assert_eq!(h.hint(""), None);
    assert_eq!(h.hint("zz"), None);
    assert_eq!(h.hint("get x"), None);
}
