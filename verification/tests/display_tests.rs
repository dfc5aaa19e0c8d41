use pinger::{error_summary, n_o_d, rtt_summary, status_color, StatusColor};

#[test]
fn numbers_are_shown_in_decimal() {
    assert_eq!(n_o_d(Some(0)), "0");
    assert_eq!(n_o_d(Some(7)), "7");
    assert_eq!(n_o_d(Some(10)), "10");
    assert_eq!(n_o_d(Some(1234)), "1234");
    assert_eq!(n_o_d(Some(u32::MAX)), "4294967295");
}

#[test]
fn missing_numbers_are_dashes() {
    assert_eq!(n_o_d(None), "---");
}

#[test]
fn colour_follows_error_count() {
    assert_eq!(status_color(0, 10), StatusColor::Green);
    assert_eq!(status_color(4, 10), StatusColor::Green);
    assert_eq!(status_color(5, 10), StatusColor::Yellow);
    assert_eq!(status_color(9, 10), StatusColor::Yellow);
    assert_eq!(status_color(10, 10), StatusColor::Red);
    assert_eq!(status_color(400, 10), StatusColor::Red);
}

#[test]
fn colour_edge_thresholds() {
    assert_eq!(status_color(0, 0), StatusColor::Red);
    assert_eq!(status_color(0, 1), StatusColor::Yellow);
    assert_eq!(status_color(1, 1), StatusColor::Red);
    assert_eq!(status_color(2, 5), StatusColor::Yellow);
    assert_eq!(status_color(1, 5), StatusColor::Green);
}

#[test]
fn rtt_line_matches_field_layout() {
    let line = rtt_summary(Some(12), Some(3), Some(140), None);
    assert_eq!(line, format!("rtt: {:5} min/max/avg: {:^5}/{:^5}/{:^5}", "12", "3", "140", "---"));
    assert_eq!(line, "rtt: 12    min/max/avg:   3  / 140 / --- ");
    let wide = rtt_summary(Some(1234567), Some(0), Some(99999), Some(12345));
    assert_eq!(wide, "rtt: 1234567 min/max/avg:   0  /99999/12345");
    assert_eq!(rtt_summary(None, None, None, None), "rtt: ---   min/max/avg:  --- / --- / --- ");
}

#[test]
fn error_line_matches_field_layout() {
    assert_eq!(error_summary(0, 7), format!("err_t: {:^5} err_r: {:^5}", 0, 7));
    assert_eq!(error_summary(42, 1234567), "err_t:  42   err_r: 1234567");
}
