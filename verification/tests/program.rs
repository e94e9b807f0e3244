use mdt::machine::Mdt;
use mdt::parser::try_parse;

const PROGRAM: &str = "
(0, [a..z], init, [a..z], <)

(init, -, init2, @, <)
(init2, -, goConv, !, >)

(ckRot, [!\"#$%&\'\\(\\)*+\\,-\\./0..8], goConv, [\"#$%&\'\\(\\)*+\\,-\\./0..9], >)
(ckRot, 9, NO, -, >)

(goConv, ^=, goConv, ^=, >)
(goConv, =, conv, =, >)

(conv, [a..z], conv, [b..za], >)
(conv, -, goCpy, @, <)
(conv, @, goCpy, @, <)

(goCpy, [a..z], goCpy, [a..z], <)
(goCpy, @, goCpy, @, <)
(goCpy, =, find, =, >)
(goCpy, [!\"#$%&\'\\(\\)*+\\,-\\./0123456789:], find, [!\"#$%&\'\\(\\)*+\\,-\\./0123456789:], >)

(find, [!\"#$%&\'\\(\\)*+\\,-\\./0123456789:], find, [!\"#$%&\'\\(\\)*+\\,-\\./0123456789:], >)
(find, [a..z], piazza[a..z], [!\"#$%&\'\\(\\)*+\\,-\\./0123456789:], >)
(find, @, goConf, @, <)

(piazza[a..z], ^-, piazza[a..z], ^-, >)
(piazza[a..z], -, goCpy, [a..z], <)

(goConf, [!\"#$%&\'\\(\\)*+\\,-\\./0123456789:], goConf, [a..z], <)
(goConf, =, goConf2, =, <)

(goConf2, ^@, goConf2, ^@, <)
(goConf2, @, conf, @, >)

(conf, [a..z], gogoCk1[a..z], [!\"#$%&\'\\(\\)*+\\,-\\./0123456789:], >)
(conf, [!\"#$%&\'\\(\\)*+\\,-\\./0123456789:], conf2, [!\"#$%&\'\\(\\)*+\\,-\\./0123456789:], >)

(conf2, [!\"#$%&\'\\(\\)*+\\,-\\./0123456789:], conf2, [!\"#$%&\'\\(\\)*+\\,-\\./0123456789:], >)
(conf2, [a..z], gogoCk2[a..z], [!\"#$%&\'\\(\\)*+\\,-\\./0123456789:], >)
(conf2, ?, SI, ?, >)

(gogoCk1[a..z], ^=, gogoCk1[a..z], ^=, >)
(gogoCk1[a..z], =, goCk1[a..z], =, >)

(goCk1[a..z], ^, NOSTR, \\^, <)
(goCk1[a..z], \\^, goCk1[a..z], \\^, >)
(goCk1[a..z], @, NOROT, @, -)
(goCk1[a..z], [a..z], go@, \\^, <)

(gogoCk2[a..z], ^=, gogoCk2[a..z], ^=, >)
(gogoCk2[a..z], =, goCk2[a..z], =, >)

(goCk2[a..z], ^, NOSTR, ^, <)
(goCk2[a..z], \\^, goCk2[a..z], \\^, >)
(goCk2[a..z], @, NOROT, @, -)
(goCk2[a..z], [a..z], go@, [!\"#$%&\'\\(\\)*+\\,-\\./0123456789:], <)
(goCk2[a..z], {!\"#$%&\'\\(\\)*+\\,-\\./0123456789:}, goCk2[a..z], {!\"#$%&\'\\(\\)*+\\,-\\./0123456789:}, >)

(go@, ^@, go@, ^@, <)
(go@, @, conf, @, >)

(NOSTR, [!\"#$%&\'\\(\\)*+\\,-\\./0123456789:], NOSTR, [a..z], <)
(NOSTR, [a..z], NOSTR, [a..z], <)
(NOSTR, [?=], NOSTR, [?=], <)
(NOSTR, \\^, NOSTR, \\^, <)
(NOSTR, @, conf, @, >)

(NOROT, @, piazzaSpeciale, @, <)

(piazzaSpeciale, \\^, goRicopia, \\^, >)
(piazzaSpeciale, [!\"#$%&\'\\(\\)*+\\,-\\./0123456789:], piazzaSpeciale, \\^, <)

(goRicopia, ^-, goRicopia, ^-, >)
(goRicopia, -, ck, -, <)

(ck, @, goIncRot, @, <)
(ck, [a..z], goWr[a..z], -, <)

(goWr[a..z], {a..z}, goWr[a..z], {a..z}, <)
(goWr[a..z], @, wr[a..z], @, <)

(wr[a..z], {a..z}, wr[a..z], {a..z}, <)
(wr[a..z], \\^, goRicopia, [a..z], >)

(goIncrot, [!\"#$%&\'\\(\\)*+\\,-\\./0123456789:], goIncRot, [a..z], <)
(goIncRot, ^@, goIncRot, ^@, <)
(goIncRot, @, ckRot, @, <)

(NO, ^-, NO, -, >)
(NO, -, fine, ?, -)

(SI, ^-, SI, -, <)
(SI, -, goStr, -, >)

(goStr, -, goStr, -, >)
(goStr, ^@, pz, ^@, -)

(pz, ^@, pz, \\^, >)
(pz, @, goRic, @, >)

(goRic, ^-, goRic, ^-, >)
(goRic, -, ckk, -, <)

(fine, ^-, fine, ^-, <)
(fine, -, ciao, -, >)

(ciao, \\^, ciao, -, >)

(ckk, @, fine, -, <)
(ckk, [a..z], goWrr[a..z], -, <)

(goWrr[a..z], {a..z}, goWrr[a..z], {a..z}, <)
(goWrr[a..z], @, wrr[a..z], @, <)

(wrr[a..z], {a..z}, wrr[a..z], {a..z}, <)
(wrr[a..z], \\^, goRic, [a..z], >)";

#[test]
fn rotation_program_is_accepted() {
    let rules = try_parse(PROGRAM).expect("well formed");
    assert!(rules.len() > 1000);
}

#[test]
fn rotation_program_halts() {
    let mut m = Mdt::try_new("alba?=dwwdffduhdoodoed", PROGRAM).expect("valid");
    let it = m.run(1_000_000).expect("room");
    assert!(it < 1_000_000);
    assert!(!m.step());
}
