use helix_term::prompt::{command_list, completions, is_quit};

const LONG: &str =
    "averylongcommandaverylongcommandaverylongcommandaverylongcommandaverylongcommand";

#[test]
fn no_input_offers_every_command() {
    let all = completions("");
    assert_eq!(all.len(), 31);
    assert_eq!(all, command_list());
    assert_eq!(all[0], "q");
    assert_eq!(all[5], "eee");
    assert_eq!(all[6], LONG);
    assert_eq!(all[7], "q");
    assert_eq!(all[30], "eee");
}

#[test]
fn completions_contain_the_input() {
    assert_eq!(completions("q"), vec!["q"; 5]);
    assert_eq!(completions("bb"), vec!["bbb"; 5]);
    assert_eq!(completions("longcommandavery"), vec![LONG]);
    assert_eq!(
        completions("a"),
        vec!["aaa", LONG, "aaa", "aaa", "aaa", "aaa"]
    );
    assert!(completions("qq").is_empty());
    assert!(completions("\u{e9}").is_empty());
}

#[test]
fn only_q_quits() {
    assert!(is_quit("q"));
    assert!(!is_quit(""));
    assert!(!is_quit("qq"));
    assert!(!is_quit("Q"));
    assert!(!is_quit(" q"));
}
