use hex_rs::{AppConfig, Player};

#[test]
fn default_config() {
    let c = AppConfig::default();
    assert_eq!(c.width, 11);
    assert_eq!(c.height, 11);
    assert!(c.swap_rule);
    assert_eq!(c.first_player, Player::Red);
    assert_eq!(c.agent1, "Human");
    assert_eq!(c.agent2, "Human");
}

#[test]
fn text_of_a_config() {
    let mut c = AppConfig::default();
    c.width = 7;
    c.height = 13;
    c.swap_rule = false;
    c.first_player = Player::Blue;
    assert_eq!(c.to_text(), "width=7\nheight=13\nswap_rule=false\nfirst_player=Blue\n");
    assert_eq!(AppConfig::default().to_text(), "width=11\nheight=11\nswap_rule=true\nfirst_player=Red\n");
}

#[test]
fn reading_a_full_file() {
    let c = AppConfig::from_text("width=5\nheight=7\nswap_rule=false\nfirst_player=Blue\n");
    assert_eq!(c.width, 5);
    assert_eq!(c.height, 7);
    assert!(!c.swap_rule);
    assert_eq!(c.first_player, Player::Blue);
    assert_eq!(c.agent1, "Human");
}

#[test]
fn write_then_read_gives_the_same_settings() {
    for (w, h, s, p) in [(3, 30, true, Player::Red), (0, usize::MAX, false, Player::Blue), (19, 19, true, Player::Blue)] {
        let mut c = AppConfig::default();
        c.width = w;
        c.height = h;
        c.swap_rule = s;
        c.first_player = p;
        let back = AppConfig::from_text(&c.to_text());
        assert_eq!((back.width, back.height, back.swap_rule, back.first_player), (w, h, s, p));
    }
}

#[test]
fn empty_text_gives_defaults() {
    let c = AppConfig::from_text("");
    assert_eq!((c.width, c.height, c.swap_rule, c.first_player), (11, 11, true, Player::Red));
}

#[test]
fn white_space_and_crlf_are_trimmed() {
    let c = AppConfig::from_text("  width =  9 \r\n\theight= 4\r\nswap_rule = false\r\n first_player = Blue ");
    assert_eq!((c.width, c.height, c.swap_rule, c.first_player), (9, 4, false, Player::Blue));
}

#[test]
fn unreadable_values_are_ignored() {
    let c = AppConfig::from_text("width=abc\nheight=-3\nswap_rule=yes\n");
    assert_eq!((c.width, c.height, c.swap_rule), (11, 11, true));
    let c = AppConfig::from_text("width=\nheight=+\n");
    assert_eq!((c.width, c.height), (11, 11));
    let c = AppConfig::from_text("width=99999999999999999999999\n");
    assert_eq!(c.width, 11);
}

#[test]
fn plus_sign_is_accepted() {
    let c = AppConfig::from_text("width=+4\n");
    assert_eq!(c.width, 4);
}

#[test]
fn lines_with_other_shapes_are_ignored() {
    let c = AppConfig::from_text("width\nheight=5=6\ncolour=blue\n=\nwidth 8\n");
    assert_eq!((c.width, c.height), (11, 11));
}

#[test]
fn unknown_first_player_means_red() {
    let c = AppConfig::from_text("first_player=Blue\nfirst_player=Green\n");
    assert_eq!(c.first_player, Player::Red);
    let c = AppConfig::from_text("first_player=blue\n");
    assert_eq!(c.first_player, Player::Red);
}

#[test]
fn later_lines_win() {
    let c = AppConfig::from_text("width=5\nwidth=6\nheight=8\nheight=x\n");
    assert_eq!((c.width, c.height), (6, 8));
}

#[test]
fn last_line_without_newline_counts() {
    let c = AppConfig::from_text("height=12");
    assert_eq!(c.height, 12);
}

#[test]
fn carriage_return_at_end_of_text_is_kept() {
    // Like `str::lines`, a final line without `\n` keeps its `\r`; trimming removes it anyway.
    let c = AppConfig::from_text("width=6\r");
    assert_eq!(c.width, 6);
}

#[test]
fn agrees_with_std_parsing() {
    let samples = ["0", "12", "+7", "", "+", "-1", " 3", "3 ", "1_000", "007", "18446744073709551615", "18446744073709551616"];
    for s in samples {
        let text = format!("width={}\n", s);
        let c = AppConfig::from_text(&text);
        let expected: usize = s.trim().parse().unwrap_or(11);
        assert_eq!(c.width, expected, "value {:?}", s);
    }
    for s in ["true", "false", "True", " true ", "1", ""] {
        let text = format!("swap_rule={}", s);
        let c = AppConfig::from_text(&text);
        let expected: bool = s.trim().parse().unwrap_or(true);
        assert_eq!(c.swap_rule, expected, "value {:?}", s);
    }
}
