use process_viewer::command_line::{parse_entry, parse_quote};

#[test]
fn plain_words_are_cut_at_spaces() {
    assert_eq!(parse_entry("ls -l /tmp"), vec!["ls", "-l", "/tmp"]);
    assert_eq!(parse_entry("ls"), vec!["ls"]);
}

#[test]
fn every_line_gives_an_argument() {
    assert_eq!(parse_entry(""), vec![""]);
    assert_eq!(parse_entry("'"), vec!["", ""]);
    assert_eq!(parse_entry("\""), vec!["", ""]);
}

#[test]
fn empty_words_are_kept() {
    assert_eq!(parse_entry("a  b"), vec!["a", "", "b"]);
    assert_eq!(parse_entry(" a "), vec!["", "a", ""]);
}

#[test]
fn quoted_text_is_one_argument() {
    assert_eq!(parse_entry("a 'b c'"), vec!["a", "", "b c", ""]);
    assert_eq!(parse_entry("a \"b c\" d"), vec!["a", "", "b c", "", "d"]);
    assert_eq!(parse_entry("'b c'"), vec!["", "b c", ""]);
}

#[test]
fn the_other_quote_is_kept_inside_quotes() {
    assert_eq!(parse_entry("say \"it's here\""), vec!["say", "", "it's here", ""]);
    assert_eq!(parse_entry("say 'a \"b\" c'"), vec!["say", "", "a \"b\" c", ""]);
}

#[test]
fn an_unclosed_quote_takes_the_rest() {
    assert_eq!(parse_entry("a 'b c"), vec!["a", "", "b c"]);
    assert_eq!(parse_entry("a 'b \"c"), vec!["a", "", "b \"c"]);
}

#[test]
fn only_the_first_pair_of_a_quote_protects_spaces() {
    assert_eq!(
        parse_entry("'a b' 'c d'"),
        vec!["", "a b", "", "", "c", "d", ""]
    );
}

#[test]
fn a_later_pair_of_the_other_quote_protects_spaces() {
    assert_eq!(
        parse_entry("'a b' \"c d\""),
        vec!["", "a b", "", "", "c d", ""]
    );
}

#[test]
fn characters_of_any_width_are_kept() {
    assert_eq!(
        parse_entry("\u{e9}t\u{e9} '\u{65e5} \u{1f600}'"),
        vec!["\u{e9}t\u{e9}", "", "\u{65e5} \u{1f600}", ""]
    );
}

#[test]
fn parse_quote_cuts_at_the_quote_it_is_given() {
    assert_eq!(parse_quote("a,b c,d e", ','), vec!["a", "b c", "d", "e"]);
    assert_eq!(parse_quote("a b", '\''), vec!["a", "b"]);
    assert_eq!(parse_quote("a\"b c\"'d e'", '\''), vec!["a", "b c", "", "d e", ""]);
}

#[test]
fn nothing_is_lost_but_quotes_and_spaces() {
    let line = "a 'b \"c\" d' e \"f g\" 'h";
    let kept: String = line
        .chars()
        .filter(|c| !matches!(c, ' ' | '\'' | '"'))
        .collect();
    let args: String = parse_entry(line)
        .concat()
        .chars()
        .filter(|c| !matches!(c, ' ' | '\'' | '"'))
        .collect();
    assert_eq!(args, kept);
    assert_eq!(args, "abcdefgh");
}

#[test]
fn words_joined_by_spaces_come_back() {
    let words = vec!["cargo", "run", "--release"];
    assert_eq!(parse_entry(&words.join(" ")), words);
}
