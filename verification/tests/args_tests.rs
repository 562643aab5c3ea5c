use nurep::args::{parse_args, parse_player_args, Arguments};
use nurep::decimal::{format_i32, parse_i32};

fn args(list: &[&str]) -> Vec<String> {
    list.iter().map(|s| s.to_string()).collect()
}

#[test]
fn three_free_arguments_are_game_observer_and_path() {
    assert_eq!(
        parse_args(&args(&["download", "12345", "3", "out.json"])),
        Some(Arguments {
            program_name: String::from("download"),
            game_id: 12345,
            observer_id: 3,
            output_path: String::from("out.json"),
            auth_username: None,
        })
    );
}

#[test]
fn further_free_arguments_are_ignored() {
    let parsed = parse_args(&args(&["d", "1", "2", "a", "b", "c"])).unwrap();
    assert_eq!((parsed.game_id, parsed.observer_id), (1, 2));
    assert_eq!(parsed.output_path, "a");
}

#[test]
fn too_few_arguments_are_malformed() {
    assert_eq!(parse_args(&args(&[])), None);
    assert_eq!(parse_args(&args(&["d"])), None);
    assert_eq!(parse_args(&args(&["d", "1"])), None);
    assert_eq!(parse_args(&args(&["d", "1", "2"])), None);
    assert_eq!(parse_args(&args(&["d", "1", "-a", "me", "2"])), None);
}

#[test]
fn ids_must_be_decimal_integers() {
    assert_eq!(parse_args(&args(&["d", "x", "2", "out"])), None);
    assert_eq!(parse_args(&args(&["d", "1", "", "out"])), None);
    assert_eq!(parse_args(&args(&["d", "1.5", "2", "out"])), None);
    assert_eq!(parse_args(&args(&["d", "1", "2147483648", "out"])), None);
    let parsed = parse_args(&args(&["d", "-7", "+2147483647", "out"])).unwrap();
    assert_eq!((parsed.game_id, parsed.observer_id), (-7, 2147483647));
}

#[test]
fn the_auth_option_names_the_user() {
    for flag in ["-a", "--auth"] {
        for at in 1..=4 {
            let mut list = vec!["d", "1", "2", "out"];
            list.insert(at, "me");
            list.insert(at, flag);
            let parsed = parse_args(&args(&list)).unwrap();
            assert_eq!(parsed.auth_username, Some(String::from("me")));
            assert_eq!((parsed.game_id, parsed.observer_id), (1, 2));
            assert_eq!(parsed.output_path, "out");
            assert_eq!(parsed.program_name, "d");
        }
    }
}

#[test]
fn the_auth_option_takes_whatever_follows_it() {
    let parsed = parse_args(&args(&["d", "-a", "-a", "1", "2", "out"])).unwrap();
    assert_eq!(parsed.auth_username, Some(String::from("-a")));
    let parsed = parse_args(&args(&["d", "--auth", "7", "1", "2", "out"])).unwrap();
    assert_eq!(parsed.auth_username, Some(String::from("7")));
    assert_eq!(parsed.game_id, 1);
}

#[test]
fn a_malformed_auth_option_is_rejected() {
    assert_eq!(parse_args(&args(&["d", "1", "2", "out", "-a"])), None);
    assert_eq!(parse_args(&args(&["d", "1", "2", "out", "--auth"])), None);
    assert_eq!(parse_args(&args(&["d", "-a", "me", "-a", "you", "1", "2", "out"])), None);
    assert_eq!(parse_args(&args(&["d", "-a", "me", "1", "2", "out", "--auth", "you"])), None);
}

#[test]
fn other_dashed_arguments_are_free() {
    let parsed = parse_args(&args(&["-a", "-1", "-2", "--out", "-A", "--authx"])).unwrap();
    assert_eq!(parsed.program_name, "-a");
    assert_eq!((parsed.game_id, parsed.observer_id), (-1, -2));
    assert_eq!(parsed.output_path, "--out");
    assert_eq!(parsed.auth_username, None);
}

#[test]
fn decimal_integers_are_read_as_the_standard_library_reads_them() {
    let texts = [
        "0", "7", "-7", "+7", "007", "-0", "+0", "2147483647", "-2147483648", "2147483648",
        "-2147483649", "99999999999999999999999", "-99999999999999999999999", "", "-", "+", "--1",
        "+-1", "1-", " 1", "1 ", "1_000", "0x10", "12a", "a12", "١٢", "1.0", "00000000000000000012",
    ];
    for text in texts {
        assert_eq!(parse_i32(text), text.parse::<i32>().ok(), "{:?}", text);
    }
}

#[test]
fn decimal_integers_have_exact_values() {
    assert_eq!(parse_i32("12345"), Some(12345));
    assert_eq!(parse_i32("-2147483648"), Some(i32::MIN));
    assert_eq!(parse_i32("+2147483647"), Some(i32::MAX));
    assert_eq!(parse_i32("4294967296"), None);
    assert_eq!(parse_i32("nine"), None);
}

#[test]
fn the_player_takes_a_single_path() {
    assert_eq!(parse_player_args(&args(&["nurep", "game.json"])), Some(String::from("game.json")));
    assert_eq!(parse_player_args(&args(&["nurep", ""])), Some(String::new()));
}

#[test]
fn the_player_rejects_any_other_number_of_arguments() {
    assert_eq!(parse_player_args(&args(&[])), None);
    assert_eq!(parse_player_args(&args(&["nurep"])), None);
    assert_eq!(parse_player_args(&args(&["nurep", "a", "b"])), None);
}

#[test]
fn integers_are_written_in_decimal_notation() {
    assert_eq!(format_i32(0), "0");
    assert_eq!(format_i32(7), "7");
    assert_eq!(format_i32(10), "10");
    assert_eq!(format_i32(-1), "-1");
    assert_eq!(format_i32(1234567890), "1234567890");
    assert_eq!(format_i32(i32::MAX), "2147483647");
    assert_eq!(format_i32(i32::MIN), "-2147483648");
}

#[test]
fn reading_what_was_written_gives_the_integer_back() {
    let mut n: i32 = i32::MIN;
    loop {
        let text = format_i32(n);
        assert_eq!(text, n.to_string());
        assert_eq!(parse_i32(&text), Some(n));
        match n.checked_add(7_654_321) {
            Some(next) => n = next,
            None => break,
        }
    }
    for n in -1000..1000 {
        assert_eq!(parse_i32(&format_i32(n)), Some(n));
    }
}
