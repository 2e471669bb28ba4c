use do_tasks::dispatch::{parse_command, parse_id, run, run_action_with_today, Action, Outcome};
use do_tasks::store::{list_all_tasks, memory_connection, Filter, TaskError};

fn argv(words: &[&str]) -> Vec<String> {
    let mut v = vec!["do".to_string()];
    for w in words {
        v.push(w.to_string());
    }
    v
}

#[test]
fn parse_id_accepts_integers() {
    assert_eq!(parse_id(&"0".to_string()), Some(0));
    assert_eq!(parse_id(&"42".to_string()), Some(42));
    assert_eq!(parse_id(&"-7".to_string()), Some(-7));
    assert_eq!(parse_id(&"+7".to_string()), Some(7));
    assert_eq!(parse_id(&"0042".to_string()), Some(42));
    assert_eq!(parse_id(&"9223372036854775807".to_string()), Some(i64::MAX));
    assert_eq!(parse_id(&"-9223372036854775808".to_string()), Some(i64::MIN));
}

#[test]
fn parse_id_rejects_non_integers() {
    assert_eq!(parse_id(&"".to_string()), None);
    assert_eq!(parse_id(&"-".to_string()), None);
    assert_eq!(parse_id(&"+".to_string()), None);
    assert_eq!(parse_id(&"abc".to_string()), None);
    assert_eq!(parse_id(&"12x".to_string()), None);
    assert_eq!(parse_id(&"1.5".to_string()), None);
    assert_eq!(parse_id(&"9223372036854775808".to_string()), None);
    assert_eq!(parse_id(&"-9223372036854775809".to_string()), None);
    assert_eq!(parse_id(&"99999999999999999999999".to_string()), None);
}

#[test]
fn parses_each_command_word() {
    assert!(matches!(parse_command(&argv(&[])), Ok(Action::Usage)));
    assert!(matches!(parse_command(&argv(&["help"])), Ok(Action::Help)));
    assert!(matches!(parse_command(&argv(&["list"])), Ok(Action::List(Filter::All))));
    assert!(matches!(parse_command(&argv(&["list", "done"])), Ok(Action::List(Filter::Done))));
    assert!(matches!(
        parse_command(&argv(&["list", "not-done"])),
        Ok(Action::List(Filter::NotDone))
    ));
    assert!(matches!(
        parse_command(&argv(&["done", "3"])),
        Ok(Action::SetDone { id: 3, done: true })
    ));
    assert!(matches!(
        parse_command(&argv(&["undone", "3"])),
        Ok(Action::SetDone { id: 3, done: false })
    ));
    assert!(matches!(parse_command(&argv(&["remove", "3"])), Ok(Action::Remove { id: 3 })));
    assert!(matches!(parse_command(&argv(&["frobnicate"])), Ok(Action::Unrecognized)));
}

#[test]
fn parses_add_with_and_without_date() {
    match parse_command(&argv(&["add", "Buy milk", "05-03-2024"])) {
        Ok(Action::Add { name, date }) => {
            assert_eq!(name, "Buy milk");
            assert_eq!(date, Some("05-03-2024".to_string()));
        }
        _ => panic!("add with date did not parse"),
    }
    match parse_command(&argv(&["add", "Buy milk"])) {
        Ok(Action::Add { name, date }) => {
            assert_eq!(name, "Buy milk");
            assert_eq!(date, None);
        }
        _ => panic!("add without date did not parse"),
    }
}

#[test]
fn reports_each_input_error() {
    assert_eq!(parse_command(&argv(&["list", "finished"])).err(), Some(TaskError::InvalidFilter));
    assert_eq!(
        parse_command(&argv(&["add", "X", "31-13-2024"])).err(),
        Some(TaskError::InvalidDate)
    );
    assert_eq!(parse_command(&argv(&["add"])).err(), Some(TaskError::InvalidArgumentCount));
    assert_eq!(
        parse_command(&argv(&["add", "a", "01-01-2024", "extra"])).err(),
        Some(TaskError::InvalidArgumentCount)
    );
    assert_eq!(parse_command(&argv(&["done"])).err(), Some(TaskError::InvalidArgumentCount));
    assert_eq!(parse_command(&argv(&["done", "abc"])).err(), Some(TaskError::InvalidId));
    assert_eq!(parse_command(&argv(&["undone", "1.5"])).err(), Some(TaskError::InvalidId));
    assert_eq!(parse_command(&argv(&["remove", "x"])).err(), Some(TaskError::InvalidId));
}

#[test]
fn scenario_add_buy_milk_then_list() {
    let mut conn = memory_connection().unwrap();
    assert!(matches!(run(&mut conn, &argv(&["add", "Buy milk", "05-03-2024"])), Ok(Outcome::Changed)));
    match run(&mut conn, &argv(&["list"])) {
        Ok(Outcome::Tasks(v)) => {
            assert_eq!(v.len(), 1);
            assert_eq!(v[0].id, 1);
            assert_eq!(v[0].name, "Buy milk");
            assert!(!v[0].is_done);
            assert_eq!(v[0].date, "05-03-2024");
        }
        _ => panic!("list did not return tasks"),
    }
}

#[test]
fn scenario_dateless_add_uses_the_given_day() {
    let mut conn = memory_connection().unwrap();
    let action = Action::Add { name: "Pay rent".to_string(), date: None };
    let today = "10-07-2025".to_string();
    assert!(matches!(
        run_action_with_today(&mut conn, &action, &today),
        Ok(Outcome::Changed)
    ));
    let all = list_all_tasks(&conn).unwrap();
    assert_eq!(all.len(), 1);
    assert_eq!(all[0].name, "Pay rent");
    assert_eq!(all[0].date, "10-07-2025");
}

#[test]
fn scenario_invalid_month_rejected_store_unchanged() {
    let mut conn = memory_connection().unwrap();
    assert_eq!(run(&mut conn, &argv(&["add", "X", "31-13-2024"])).err(), Some(TaskError::InvalidDate));
    let all = list_all_tasks(&conn).unwrap();
    assert_eq!(all.len(), 0);
}

#[test]
fn scenario_done_then_remove_then_replay() {
    let mut conn = memory_connection().unwrap();
    assert!(run(&mut conn, &argv(&["add", "Buy milk", "05-03-2024"])).is_ok());
    assert!(matches!(run(&mut conn, &argv(&["done", "1"])), Ok(Outcome::Changed)));
    assert!(matches!(run(&mut conn, &argv(&["remove", "1"])), Ok(Outcome::Changed)));
    match run(&mut conn, &argv(&["list"])) {
        Ok(Outcome::Tasks(v)) => assert_eq!(v.len(), 0),
        _ => panic!("list did not return tasks"),
    }
    // Replaying the id-based calls against the missing id still succeeds.
    assert!(matches!(run(&mut conn, &argv(&["done", "1"])), Ok(Outcome::Changed)));
    assert!(matches!(run(&mut conn, &argv(&["remove", "1"])), Ok(Outcome::Changed)));
}

#[test]
fn dateless_add_stores_a_date_the_validator_accepts() {
    let mut conn = memory_connection().unwrap();
    assert!(matches!(run(&mut conn, &argv(&["add", "X"])), Ok(Outcome::Changed)));
    let all = list_all_tasks(&conn).unwrap();
    assert_eq!(all.len(), 1);
    assert!(do_tasks::date::validate_date(&all[0].date));
}

#[test]
fn usage_help_and_unknown_words_touch_nothing() {
    let mut conn = memory_connection().unwrap();
    assert!(matches!(run(&mut conn, &argv(&[])), Ok(Outcome::Usage)));
    assert!(matches!(run(&mut conn, &argv(&["help"])), Ok(Outcome::Help)));
    assert!(matches!(run(&mut conn, &argv(&["wrongg"])), Ok(Outcome::Unrecognized)));
    let all = list_all_tasks(&conn).unwrap();
    assert_eq!(all.len(), 0);
}
