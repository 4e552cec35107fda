use gateway_client::handler::{
    contains_id, learn_message, list_message, mentions_wot, parse_command, remember_word,
    remember_words, spaced_text, split_words, Argument, BotCommand, CommandError, LearnProgress,
};
use gateway_client::markov::{Markov, Word};
use gateway_client::reaction::{pick_reaction, BONK, SPLASH};
use gateway_client::types::{Id, User};

fn strings(ws: &[&str]) -> Vec<String> {
    ws.iter().map(|w| w.to_string()).collect()
}

#[test]
fn splits_on_any_white_space() {
    assert_eq!(split_words("  a b\t\nc\u{3000}d  "), strings(&["a", "b", "c", "d"]));
    assert_eq!(split_words(""), Vec::<String>::new());
    assert_eq!(split_words(" \t "), Vec::<String>::new());
    assert_eq!(split_words("one"), strings(&["one"]));
}

#[test]
fn mentions_become_names() {
    let users = vec![User { id: Id(42), username: "Nelly", discriminator: "1337" }];
    assert_eq!(remember_word("<@!42>", &users), "`Nelly#1337`");
    assert_eq!(remember_word("<@!43>", &users), "`<@!43>`");
    assert_eq!(remember_word("<@!>", &users), "`<@!>`");
    assert_eq!(remember_word("<@!", &users), "<@!");
    assert_eq!(remember_word("hello", &users), "hello");
    assert_eq!(
        remember_words("hi <@!42> there", &users),
        strings(&["hi", "`Nelly#1337`", "there"])
    );
}

#[test]
fn learns_only_long_enough_messages() {
    let mut m = Markov::new();
    learn_message(&mut m, "too short", &Vec::new());
    assert!(m.transitions().is_empty());
    learn_message(&mut m, "long enough now", &Vec::new());
    assert_eq!(m.transitions().len(), 4);
    assert!(m
        .transitions()
        .iter()
        .any(|t| t.next == Word::Word("now".to_string()) && t.weight == 1));
}

#[test]
fn wot_in_any_case() {
    assert!(mentions_wot("u said WOT"));
    assert!(mentions_wot("wot"));
    assert!(!mentions_wot("wotever"));
    assert!(!mentions_wot(""));
}

#[test]
fn commands_parse() {
    assert!(matches!(parse_command("eg!mimic"), Ok(Some(BotCommand::Mimic))));
    assert!(matches!(parse_command("eg! starts extra"), Ok(Some(BotCommand::Starts))));
    assert!(matches!(parse_command("eg!save"), Ok(Some(BotCommand::Save))));
    assert!(matches!(parse_command("eg!clean"), Ok(Some(BotCommand::Clean))));
    match parse_command("eg!follows cat") {
        Ok(Some(BotCommand::Follows(w))) => assert_eq!(w, "cat"),
        other => panic!("{:?}", other),
    }
    match parse_command("eg!learn <#123> FULL") {
        Ok(Some(BotCommand::Learn { channel, max })) => {
            assert_eq!(channel, Id(123));
            assert_eq!(max, None);
        }
        other => panic!("{:?}", other),
    }
    match parse_command("eg!learn 77 500") {
        Ok(Some(BotCommand::Learn { channel, max })) => {
            assert_eq!(channel, Id(77));
            assert_eq!(max, Some(500));
        }
        other => panic!("{:?}", other),
    }
}

#[test]
fn non_commands_are_ignored() {
    assert!(matches!(parse_command("hello"), Ok(None)));
    assert!(matches!(parse_command("eg!"), Ok(None)));
    assert!(matches!(parse_command("eg!dance"), Ok(None)));
    assert!(matches!(parse_command(" eg!mimic"), Ok(None)));
}

#[test]
fn command_errors() {
    assert_eq!(
        parse_command("eg!follows").unwrap_err(),
        CommandError::MissingArgument(Argument::Word)
    );
    assert_eq!(
        parse_command("eg!learn").unwrap_err(),
        CommandError::MissingArgument(Argument::Channel)
    );
    assert_eq!(
        parse_command("eg!learn <#1>").unwrap_err(),
        CommandError::MissingArgument(Argument::Max)
    );
    assert_eq!(parse_command("eg!learn <#1> lots").unwrap_err(), CommandError::InvalidNumber);
    assert_eq!(parse_command("eg!learn #general 5").unwrap_err(), CommandError::InvalidChannel);
}

#[test]
fn list_and_sentence_texts() {
    assert_eq!(list_message(&Vec::new()), "Nothing!");
    assert_eq!(list_message(&strings(&["a", "b"])), "a b ");
    assert_eq!(spaced_text(&strings(&["hi", "there"])), "hi there ");
    assert_eq!(spaced_text(&Vec::new()), "");
}

#[test]
fn id_lists() {
    let ids = vec![Id(1), Id(5)];
    assert!(contains_id(&ids, Id(5)));
    assert!(!contains_id(&ids, Id(2)));
    assert!(!contains_id(&Vec::new(), Id(2)));
}

#[test]
fn learn_progress_walks_back() {
    let mut p = LearnProgress::new();
    assert_eq!(p.take_before(), None);
    p.count(3);
    p.record(Id(30), 300);
    p.record(Id(10), 100);
    p.record(Id(20), 200);
    assert_eq!(p.oldest_id, Some(Id(10)));
    assert!(!p.finished(None));
    assert!(p.finished(Some(3)));
    assert!(!p.finished(Some(4)));
    assert_eq!(p.take_before(), Some(Id(10)));
    p.count(1);
    p.record(Id(40), 400);
    assert_eq!(p.oldest_id, None);
    assert!(p.finished(None));
    assert_eq!(p.sum, 4);
}

#[test]
fn reactions_are_one_of_two() {
    for _ in 0..500 {
        let r = pick_reaction();
        assert!(r.is_none() || r == Some(BONK) || r == Some(SPLASH));
    }
    assert_eq!(SPLASH, "\u{1F4A6}");
}
