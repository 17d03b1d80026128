use arkade_city::actions::{canonical_actions, player_chain, ActionEvent};
use arkade_city::chain::{OutPoint, Txid};
use arkade_city::script::{is_p2tr, script_hex};
use arkade_city::text::{
    decimal_string, int_string, join, parse_i64, parse_u64, same_ignoring_case, starts_with,
    text_precedes, trim,
};

fn id(byte: u8) -> Txid {
    Txid::from_byte_array([byte; 32])
}

fn event(tx: u8, player: u8, sequence: u32, spends: OutPoint, at: Option<i64>) -> ActionEvent {
    ActionEvent {
        txid: id(tx),
        player: id(player),
        sequence,
        action: 0,
        predecessor: spends,
        created_at: at,
        local_tentative: false,
    }
}

fn carrier(tx: u8, vout: u32) -> OutPoint {
    OutPoint { txid: id(tx), vout }
}

fn txids(events: &[ActionEvent]) -> Vec<Txid> {
    events.iter().map(|event| event.txid).collect()
}

#[test]
fn chains_follow_the_carrier_from_the_issuance_to_the_first_gap() {
    let events = [
        event(12, 1, 2, carrier(11, 0), Some(9)),
        event(10, 1, 0, carrier(1, 1), Some(5)),
        event(11, 1, 1, carrier(10, 0), Some(7)),
        event(14, 1, 4, carrier(12, 0), Some(11)),
        event(20, 1, 0, carrier(1, 0), Some(1)),
    ];
    assert!(txids(&player_chain(&events, id(1))) == vec![id(10), id(11), id(12)]);
    assert!(player_chain(&events, id(2)).is_empty());
}

#[test]
fn competing_actions_are_ordered_by_time_and_then_by_id() {
    let first = carrier(1, 1);
    let late = event(10, 1, 0, first, Some(6));
    let early = event(30, 1, 0, first, Some(5));
    let tied = event(29, 1, 0, first, Some(5));
    assert!(txids(&player_chain(&[late, early], id(1))) == vec![id(30)]);
    assert!(txids(&player_chain(&[late, early, tied], id(1))) == vec![id(29)]);
}

#[test]
fn unindexed_actions_of_others_end_the_chain() {
    let first = event(10, 1, 0, carrier(1, 1), Some(5));
    let mut second = event(11, 1, 1, carrier(10, 0), None);
    let third = event(12, 1, 2, carrier(11, 0), Some(9));
    assert!(txids(&player_chain(&[first, second, third], id(1))) == vec![id(10)]);
    second.local_tentative = true;
    assert!(
        txids(&player_chain(&[first, second, third], id(1))) == vec![id(10), id(11), id(12)]
    );
}

#[test]
fn canonical_actions_list_each_player_once_in_order() {
    let a = event(10, 1, 0, carrier(1, 1), Some(5));
    let b = event(20, 2, 0, carrier(2, 1), Some(4));
    let gap = event(31, 3, 1, carrier(3, 1), Some(4));
    assert!(txids(&canonical_actions(&[b, a, b, gap])) == vec![id(10), id(20)]);
    assert!(canonical_actions(&[]).is_empty());
}

#[test]
fn numbers_are_read_as_text() {
    assert_eq!(parse_u64("18446744073709551615"), Some(u64::MAX));
    assert_eq!(parse_u64("18446744073709551616"), None);
    assert_eq!(parse_u64("+7"), Some(7));
    assert_eq!(parse_u64(""), None);
    assert_eq!(parse_u64("+"), None);
    assert_eq!(parse_u64("-0"), None);
    assert_eq!(parse_u64("1 "), None);
    assert_eq!(parse_i64("-9223372036854775808"), Some(i64::MIN));
    assert_eq!(parse_i64("9223372036854775808"), None);
    assert_eq!(parse_i64("-0"), Some(0));
    assert_eq!(decimal_string(0), "0");
    assert_eq!(decimal_string(u64::MAX), "18446744073709551615");
    assert_eq!(int_string(-12), "-12");
}

#[test]
fn texts_are_cut_and_compared() {
    assert_eq!(trim("\u{2003} a b\n"), "a b");
    assert_eq!(trim(" \t"), "");
    assert!(starts_with("tark1q", "tark1"));
    assert!(!starts_with("tark", "tark1"));
    assert!(same_ignoring_case("aBc", "AbC"));
    assert!(!same_ignoring_case("\u{e4}", "\u{c4}"));
    assert!(text_precedes("a:10", "a:9"));
    assert!(text_precedes("a", "aa"));
    assert!(!text_precedes("a", "a"));
    assert_eq!(join(&["a".to_string(), "b".to_string()], ","), "a,b");
    assert_eq!(join(&[], ","), "");
    assert_eq!(script_hex(&[0, 0x51, 0xff]), "0051ff");
    let taproot = [&[0x51, 0x20][..], &[9; 32][..]].concat();
    assert!(is_p2tr(&taproot));
    assert!(!is_p2tr(&taproot[..33]));
}
