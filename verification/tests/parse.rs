use mdt::parser::{
    accepts, generate_mdtrule_from_rule, generate_states_from_direction_pair, generate_states_from_state_pair,
    generate_states_from_symbol_pair, parse, try_parse, BracesType, Cleaner, FieldEntries,
};
use mdt::syntax::{parse_program_exec, DirectionSyntax, ListSyntax, Span, StateSyntax, SymbolSyntax};
use mdt::rule::{HeadDirection, MDTRule};

fn rule(cs: &str, rs: char, ns: &str, ws: char, d: HeadDirection) -> (String, char, String, char, HeadDirection) {
    (cs.to_string(), rs, ns.to_string(), ws, d)
}

fn flat(rules: &[MDTRule]) -> Vec<(String, char, String, char, HeadDirection)> {
    rules
        .iter()
        .map(|r| (r.current_state.clone(), r.read_symbol, r.next_state.clone(), r.write_symbol, r.direction))
        .collect()
}

const BIG_PROGRAM: &str = "
(0, [a..z], init, [a..z], <)

(init, -, init2, @, <)
(init2, -, goConv, !, >)

(ckRot, [!\"#$%&\'\\(\\)*+\\,-\\./0..8], goConv, [\"#$%&\'\\(\\)*+\\,-\\./0..9], >)
(ckRot, 9, NO, -, >)

(goConv, ^=, goConv, ^=, >)
(goConv, =, conv, =, >)

(goCk2[a..z], ^, NOSTR, ^, <)
(goCk2[a..z], {!\"#$%&\'\\(\\)*+\\,-\\./0123456789:}, goCk2[a..z], {!\"#$%&\'\\(\\)*+\\,-\\./0123456789:}, >)

(piazza[a..z], -, goCpy, [a..z], <)
(goCk1[a..z], \\^, goCk1[a..z], \\^, >)
(ciao, \\^, ciao, -, >)";

#[test]
fn square_list_pairs_entries() {
    let rules = parse("(0,[01],0,[10],>)");
    assert_eq!(
        flat(&rules),
        vec![rule("0", '0', "0", '1', HeadDirection::Right), rule("0", '1', "0", '0', HeadDirection::Right)]
    );
}

#[test]
fn dash_is_the_blank() {
    let rules = parse("(0,-,fine,-,-)");
    assert_eq!(flat(&rules), vec![rule("0", ' ', "FINE", ' ', HeadDirection::Stay)]);
}

#[test]
fn source_is_upper_cased() {
    let rules = parse("(q, [a..c], r[a..c], x, <)");
    assert_eq!(
        flat(&rules),
        vec![
            rule("Q", 'A', "RA", 'X', HeadDirection::Left),
            rule("Q", 'B', "RB", 'X', HeadDirection::Left),
            rule("Q", 'C', "RC", 'X', HeadDirection::Left),
        ]
    );
}

#[test]
fn square_and_curly_vary_independently() {
    let rules = parse("(S,[ab],T,{xy},[<>])");
    assert_eq!(
        flat(&rules),
        vec![
            rule("S", 'A', "T", 'X', HeadDirection::Left),
            rule("S", 'A', "T", 'Y', HeadDirection::Left),
            rule("S", 'B', "T", 'X', HeadDirection::Right),
            rule("S", 'B', "T", 'Y', HeadDirection::Right),
        ]
    );
}

#[test]
fn state_with_list_and_suffix() {
    let rules = parse("([1..3]A, x, B, y, -)");
    let names: Vec<String> = rules.iter().map(|r| r.current_state.clone()).collect();
    assert_eq!(names, vec!["1A".to_string(), "2A".to_string(), "3A".to_string()]);
}

#[test]
fn complemented_unbraced_symbol() {
    let rules = parse("(0, ^=, 0, ^=, >)");
    let reads: Vec<char> = rules.iter().map(|r| r.read_symbol).collect();
    let writes: Vec<char> = rules.iter().map(|r| r.write_symbol).collect();
    assert_eq!(reads, writes);
    assert!(!reads.contains(&'='));
    assert!(!reads.contains(&'-'));
    assert!(reads.contains(&' '));
    assert!(reads.contains(&'A'));
}

#[test]
fn lone_caret_is_every_symbol() {
    let rules = parse("(A, ^, B, x, >)");
    assert!(rules.len() > 60);
    assert!(rules.iter().all(|r| r.write_symbol == 'X' && r.current_state == "A"));
}

#[test]
fn escaped_characters_stand_for_themselves() {
    let rules = parse("(A, \\^, B, \\,, >)");
    assert_eq!(flat(&rules), vec![rule("A", '^', "B", ',', HeadDirection::Right)]);
}

#[test]
fn several_rules_in_order() {
    let rules = parse("(0,[01],0,[10],>)\n(0,-,fine,-,-)");
    assert_eq!(rules.len(), 3);
    assert_eq!(rules[2].current_state, "0");
    assert_eq!(rules[2].next_state, "FINE");
}

#[test]
fn lists_of_different_lengths_are_refused() {
    assert!(!accepts("(0,[ab],0,[abc],>)"));
    assert!(try_parse("(0,[ab],0,[abc],>)").is_none());
}

#[test]
fn malformed_programs_are_refused() {
    assert!(!accepts("(0,[01],0,[10])"));
    assert!(!accepts("(0,[01],0,[10],>"));
    assert!(!accepts("0,[01],0,[10],>)"));
    assert!(!accepts("(0,[A..5],0,x,>)"));
    assert!(!accepts("(0,a,0,b,x)"));
}

#[test]
fn empty_program_has_no_rules() {
    assert_eq!(try_parse("  \n ").map(|v| v.len()), Some(0));
}

#[test]
fn multi_byte_symbol_counts_its_bytes() {
    // An unbraced symbol's length is its length in bytes.
    let rules = parse("(0, é, 0, [ab], >)");
    assert_eq!(rules.len(), 4);
    assert!(rules.iter().all(|r| r.read_symbol == 'É'));
}

#[test]
fn big_program_is_accepted() {
    let rules = try_parse(BIG_PROGRAM).expect("well formed");
    assert!(rules.len() > 100);
    assert!(rules.iter().any(|r| r.current_state == "GOCK2Q" && r.read_symbol == ':' && r.next_state == "GOCK2Q"));
    assert!(rules.iter().any(|r| r.current_state == "PIAZZAQ" && r.read_symbol == ' ' && r.write_symbol == 'Q'));
}

#[test]
fn rule_is_shown_with_escapes() {
    let rules = parse("(go, -, a-b, \\(, <)");
    assert_eq!(rules.len(), 1);
    assert_eq!(rules[0].to_display_string(), Some("(GO,-,A-B,\\(,<)".to_string()));
}

#[test]
fn direction_symbols() {
    assert_eq!(HeadDirection::Right.symbol(), '>');
    assert_eq!(HeadDirection::Left.symbol(), '<');
    assert_eq!(HeadDirection::Stay.symbol(), '-');
}

#[test]
fn dash_after_dash_keeps_the_first() {
    let rules = parse("(A,[--],B,[xy],>)");
    let reads: Vec<char> = rules.iter().map(|r| r.read_symbol).collect();
    assert_eq!(reads, vec!['-', ' ']);
}

#[test]
fn family_from_given_entries() {
    let f = FieldEntries {
        cur_b: BracesType::Unbraced,
        cur_v: vec!["S".to_string()],
        cur_l: 1,
        read_b: BracesType::Square,
        read_v: vec!['A', 'B'],
        read_l: 2,
        next_b: BracesType::Curly,
        next_v: vec!["P".to_string(), "Q".to_string(), "R".to_string()],
        next_l: 3,
        write_b: BracesType::Square,
        write_v: vec!['X', 'Y'],
        write_l: 2,
        dir_b: BracesType::Unbraced,
        dir_v: vec![HeadDirection::Left],
        dir_l: 1,
    };
    let rules = f.build_family().expect("lengths agree");
    assert_eq!(
        flat(&rules),
        vec![
            rule("S", 'A', "P", 'X', HeadDirection::Left),
            rule("S", 'A', "Q", 'X', HeadDirection::Left),
            rule("S", 'A', "R", 'X', HeadDirection::Left),
            rule("S", 'B', "P", 'Y', HeadDirection::Left),
            rule("S", 'B', "Q", 'Y', HeadDirection::Left),
            rule("S", 'B', "R", 'Y', HeadDirection::Left),
        ]
    );
}

#[test]
fn family_with_disagreeing_lengths() {
    let f = FieldEntries {
        cur_b: BracesType::Unbraced,
        cur_v: vec!["S".to_string()],
        cur_l: 1,
        read_b: BracesType::Square,
        read_v: vec!['A', 'B'],
        read_l: 2,
        next_b: BracesType::Unbraced,
        next_v: vec!["T".to_string()],
        next_l: 1,
        write_b: BracesType::Square,
        write_v: vec!['X', 'Y', 'Z'],
        write_l: 3,
        dir_b: BracesType::Unbraced,
        dir_v: vec![HeadDirection::Stay],
        dir_l: 1,
    };
    assert!(f.build_family().is_none());
}

#[test]
fn short_unbraced_list_repeats_its_last_entry() {
    // Two unbraced fields of lengths 3 and 1: the index runs over 3 values,
    // and a list shorter than its index gives its last entry.
    let f = FieldEntries {
        cur_b: BracesType::Unbraced,
        cur_v: vec!["S".to_string()],
        cur_l: 1,
        read_b: BracesType::Unbraced,
        read_v: vec!['A', 'B'],
        read_l: 3,
        next_b: BracesType::Unbraced,
        next_v: vec!["T".to_string()],
        next_l: 1,
        write_b: BracesType::Unbraced,
        write_v: vec!['X'],
        write_l: 1,
        dir_b: BracesType::Unbraced,
        dir_v: vec![HeadDirection::Right],
        dir_l: 1,
    };
    let rules = f.build_family().expect("lengths agree");
    let reads: Vec<char> = rules.iter().map(|r| r.read_symbol).collect();
    assert_eq!(reads, vec!['A', 'B', 'B']);
}

#[test]
fn direction_field_gives_one_direction_per_character() {
    let t: Vec<char> = "(0,A,1,B,[><-])".chars().collect();
    let d = DirectionSyntax { braces: BracesType::Square, body: Span { start: 10, end: 13 } };
    let (b, dirs, n) = generate_states_from_direction_pair(&t, d);
    assert_eq!(b, BracesType::Square);
    assert_eq!(dirs, vec![HeadDirection::Right, HeadDirection::Left, HeadDirection::Stay]);
    assert_eq!(n, 3);
}

#[test]
fn lower_case_program_parses_as_its_upper_case_form() {
    let lower = "(q0,[ab],q1,[ba],>)\n(q1,-,fine,-,-)";
    let upper = "(Q0,[AB],Q1,[BA],>)\n(Q1,-,FINE,-,-)";
    assert!(accepts(lower));
    assert_eq!(flat(&parse(lower)), flat(&parse(upper)));
    assert_eq!(flat(&parse(lower))[0], rule("Q0", 'A', "Q1", 'B', HeadDirection::Right));
}

#[test]
fn state_field_with_a_range_names_one_state_per_symbol() {
    let t: Vec<char> = "Q[0..2]X".chars().collect();
    let c = Cleaner::new().expect("patterns compile");
    let st = StateSyntax {
        prefix: Some(Span { start: 0, end: 1 }),
        list: Some(ListSyntax { braces: BracesType::Square, compl: false, body: Span { start: 2, end: 6 } }),
        suffix: Some(Span { start: 7, end: 8 }),
    };
    let (b, names, n) = generate_states_from_state_pair(&c, &t, st);
    assert_eq!(b, BracesType::Square);
    assert_eq!(names, vec!["Q0X".to_string(), "Q1X".to_string(), "Q2X".to_string()]);
    assert_eq!(n, 3);
}

#[test]
fn symbol_field_counts_its_length_in_bytes() {
    let t: Vec<char> = "{A..C}".chars().collect();
    let c = Cleaner::new().expect("patterns compile");
    let sy = SymbolSyntax::Listed(ListSyntax { braces: BracesType::Curly, compl: false, body: Span { start: 1, end: 5 } });
    let (b, syms, n) = generate_states_from_symbol_pair(&c, &t, sy);
    assert_eq!(b, BracesType::Curly);
    assert_eq!(syms, vec!['A', 'B', 'C']);
    assert_eq!(n, 3);
}

#[test]
fn one_rule_of_a_program_stands_for_its_family() {
    let t: Vec<char> = "(0,[AB],1,[BA],>)".chars().collect();
    let rs = parse_program_exec(&t).expect("follows the grammar");
    assert_eq!(rs.len(), 1);
    let c = Cleaner::new().expect("patterns compile");
    let family = generate_mdtrule_from_rule(&c, &t, rs[0]);
    assert_eq!(
        flat(&family),
        vec![rule("0", 'A', "1", 'B', HeadDirection::Right), rule("0", 'B', "1", 'A', HeadDirection::Right)]
    );
}
