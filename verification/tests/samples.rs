use mdt::machine::Mdt;
use mdt::parser::try_parse;

const SEVEN_AND_A_HALF: &str = "
(0,[1..7FCR],[1..7AAA],-,>)

([1..7],{FCR},[1..7]A,-,>)
(A,[1..7],[1..7]A,-,>)

(1,[1..6],[2..7],-,>)
(1,7,B,-,>)
(1A,[1..6],[2..7]A,-,>)
(1A,7,B,-,>)

(2,[1..5],[3..7],-,>)
(2,[67],B,-,>)
(2A,[1..5],[3..7]A,-,>)
(2A,[67],B,-,>)

(3,[1..4],[4..7],-,>)
(3,[567],B,-,>)
(3A,[1..4],[4..7]A,-,>)
(3A,[567],B,-,>)

(4,[1..3],[5..7],-,>)
(4,[4567],B,-,>)
(4A,[1..3],[5..7]A,-,>)
(4A,[4567],B,-,>)

(5,[12],[67],-,>)
(5,[3..7],B,-,>)
(5A,[12],[67]A,-,>)
(5A,[3..7],B,-,>)

(6,1,7,-,>)
(6,[2..7],B,-,>)
(6A,1,7A,-,>)
(6A,[2..7],B,-,>)

(7,[1..7],B,-,>)
(7A,[1..7],B,-,>)

([1..7]A,-,OK,O,>)
([1..7]A,{FRC},[2..7B],-,>)
([1..7],-,OK,O,>)

(B,^-,B,-,>)
(B,-,KO,K,>)

(OK,-,FINE,K,-)
(KO,-,FINE,O,-)";

#[test]
fn seven_and_a_half_is_accepted() {
    let rules = try_parse(SEVEN_AND_A_HALF).expect("well formed");
    assert!(rules.len() > 100);
}

#[test]
fn seven_and_a_half_halts() {
    let mut m = Mdt::try_new("111r1111", SEVEN_AND_A_HALF).expect("valid");
    let it = m.run(1_000_000).expect("room");
    assert!(it < 1_000_000);
    assert!(!m.step());
}

#[test]
fn binary_replace_with_override() {
    let mut m = Mdt::try_new("111r1111", "(0,[01],0,[10],>)\n(0,-,fine,-,-)\n(0,0,0,5,>)").expect("valid");
    assert_eq!(m.rule_count(), 3);
    let it = m.run(1_000_000).expect("room");
    assert_eq!(it, 3);
    assert_eq!(m.to_display_string(), "000R1111");
}
