use mdt::machine::Mdt;
use mdt::rule::HeadDirection;

#[test]
fn binary_complement_runs_to_the_end() {
    let mut m = Mdt::try_new("0110", "(0,[01],0,[10],>)\n(0,-,fine,-,-)").expect("valid");
    let it = m.run(1000).expect("room");
    assert_eq!(it, 5);
    assert_eq!(m.to_display_string(), "1001");
    assert_eq!(m.as_char_vec(), vec!['1', '0', '0', '1', ' ']);
}

#[test]
fn step_reports_when_no_rule_applies() {
    let mut m = Mdt::try_new("X", "(0,[01],0,[10],>)").expect("valid");
    assert!(!m.step());
    assert_eq!(m.to_debug_string(), "[>'X'<] -- head pos id: 0, state: 0");
}

#[test]
fn step_writes_moves_and_changes_state() {
    let mut m = Mdt::try_new("ab", "(0,A,1,C,>)").expect("valid");
    assert!(m.step());
    assert_eq!(m.to_debug_string(), "['C',>'B'<] -- head pos id: 1, state: 1");
    assert!(!m.step());
}

#[test]
fn moving_right_off_the_tape_adds_a_blank() {
    let mut m = Mdt::try_new("a", "(0,A,1,A,>)").expect("valid");
    assert!(m.step());
    assert_eq!(m.as_char_vec(), vec!['A', ' ']);
    assert_eq!(m.to_debug_string(), "['A',>' '<] -- head pos id: 1, state: 1");
}

#[test]
fn moving_left_off_the_tape_adds_a_blank() {
    let mut m = Mdt::try_new("a", "(0,A,1,B,<)\n(1,-,2,Z,<)").expect("valid");
    assert!(m.step());
    assert_eq!(m.to_debug_string(), "[>' '<,'B'] -- head pos id: -1, state: 1");
    assert!(m.step());
    assert_eq!(m.to_debug_string(), "[>' '<,'Z','B'] -- head pos id: -2, state: 2");
    assert_eq!(m.to_display_string(), "ZB");
}

#[test]
fn empty_tape_is_one_blank() {
    let m = Mdt::try_new("", "(0,-,0,-,-)").expect("valid");
    assert_eq!(m.as_char_vec(), vec![' ']);
    assert_eq!(m.to_display_string(), "");
}

#[test]
fn later_rule_replaces_earlier_one() {
    let mut m = Mdt::try_new("a", "(0,A,1,X,-)\n(0,A,2,Y,-)").expect("valid");
    assert_eq!(m.rule_count(), 1);
    assert!(m.step());
    assert_eq!(m.to_debug_string(), "[>'Y'<] -- head pos id: 0, state: 2");
}

#[test]
fn rule_count_counts_distinct_keys() {
    let m = Mdt::try_new("a", "(0,[AB],1,X,-)\n(1,A,2,Y,-)").expect("valid");
    assert_eq!(m.rule_count(), 3);
}

#[test]
fn invalid_program_gives_no_machine() {
    assert!(Mdt::try_new("a", "(0,A,1,X)").is_none());
}

#[test]
fn run_stops_past_the_limit() {
    let mut m = Mdt::try_new("", "(0,-,0,-,>)").expect("valid");
    let it = m.run(10).expect("room");
    assert_eq!(it, 11);
    assert_eq!(m.as_char_vec().len(), 13);
}

#[test]
fn right_then_left_at_the_end_adds_one_blank() {
    let mut m = Mdt::try_new("ab", "(0,A,0,A,>)").expect("valid");
    assert!(m.step());
    assert_eq!(m.to_debug_string(), "['A',>'B'<] -- head pos id: 1, state: 0");
    m.move_head(HeadDirection::Right);
    m.move_head(HeadDirection::Left);
    assert_eq!(m.as_char_vec(), vec!['A', 'B', ' ']);
    assert_eq!(m.to_debug_string(), "['A',>'B'<,' '] -- head pos id: 1, state: 0");
}

#[test]
fn left_then_right_at_the_start_adds_one_blank() {
    let mut m = Mdt::try_new("ab", "(0,X,0,X,>)").expect("valid");
    m.move_head(HeadDirection::Left);
    m.move_head(HeadDirection::Right);
    assert_eq!(m.as_char_vec(), vec![' ', 'A', 'B']);
    assert_eq!(m.to_debug_string(), "[' ',>'A'<,'B'] -- head pos id: 0, state: 0");
}

#[test]
fn staying_changes_nothing() {
    let mut m = Mdt::try_new("ab", "(0,X,0,X,>)").expect("valid");
    m.move_head(HeadDirection::Stay);
    assert_eq!(m.to_debug_string(), "[>'A'<,'B'] -- head pos id: 0, state: 0");
}
