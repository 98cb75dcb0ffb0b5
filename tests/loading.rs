use grammar2d::grammar::{Grammar2D, Start, NO_CTX};

fn load(lines: &[&str]) -> Grammar2D {
    let mut g = Grammar2D::default();
    let v: Vec<String> = lines.iter().map(|s| s.to_string()).collect();
    g.load(&v);
    g
}

#[test]
fn header_columns_compile_into_rule_fields() {
    let g = load(&["^Acc", "=sATX35B*z 7 9", "@*@", "@"]);
    assert_eq!(g.rules.len(), 1);
    let r = &g.rules[0];
    assert_eq!(r.sound, 's');
    assert_eq!(r.lhs, 'A');
    assert_eq!(r.key, 'T');
    assert_eq!(r.rep, 'X');
    assert_eq!(r.fore, 3);
    assert_eq!(r.back, 5);
    assert_eq!(r.ctx, 'B');
    assert_eq!(r.ctx_rep, 'A');
    assert_eq!(r.z_ord, b'z');
    assert_eq!(r.reward, 7);
    assert_eq!(r.weight, 9);
    assert_eq!(r.lhs_all, "sATX35B*z 7 9");
    assert_eq!(r.rhs_all, "@A@\n@");
    assert_eq!((r.ro, r.co), (0, 0));
    assert_eq!((r.rm, r.cm), (0, 2));
    assert_eq!((r.rq, r.cq), (1, 0));
    assert!(g.nonterminals.contains('A'));
    assert!(!g.nonterminals.contains('X'));
}

#[test]
fn missing_header_fields_take_defaults() {
    let g = load(&["=sATX", "@@@"]);
    let r = &g.rules[0];
    assert_eq!(r.fore, 7);
    assert_eq!(r.back, 8);
    assert_eq!(r.ctx, NO_CTX);
    assert_eq!(r.ctx_rep, ' ');
    assert_eq!(r.z_ord, b'a');
    assert_eq!(r.reward, 0);
    assert_eq!(r.weight, 1);
}

#[test]
fn malformed_fields_fall_back_to_defaults() {
    let g = load(&["=sATXqx? a x y", "@@@"]);
    let r = &g.rules[0];
    assert_eq!(r.fore, 7);
    assert_eq!(r.back, 8);
    assert_eq!(r.ctx, NO_CTX);
    assert_eq!(r.reward, 0);
    assert_eq!(r.weight, 1);
}

#[test]
fn negative_and_signed_numbers_parse() {
    let g = load(&["=sATX78? a -4 +2", "@@@"]);
    assert_eq!(g.rules[0].reward, -4);
    assert_eq!(g.rules[0].weight, 2);
}

#[test]
fn reward_without_weight_keeps_default_weight() {
    let g = load(&["=sATX78? a 12", "@@@"]);
    assert_eq!(g.rules[0].reward, 12);
    assert_eq!(g.rules[0].weight, 1);
}

#[test]
fn anchors_missing_are_minus_one() {
    let g = load(&["=sATX", "@X"]);
    let r = &g.rules[0];
    assert_eq!((r.ro, r.co), (0, 0));
    assert_eq!((r.rm, r.cm), (-1, -1));
    assert_eq!((r.rq, r.cq), (-1, -1));
}

#[test]
fn batch_of_headers_shares_one_template() {
    let g = load(&["=sATX", "=tBTY", "@@@", "", "=uCTZ", " @@@"]);
    assert_eq!(g.rules.len(), 3);
    assert_eq!(g.rules[0].rhs_all, "@@@\n");
    assert_eq!(g.rules[1].rhs_all, "@@@\n");
    assert_eq!(g.rules[1].lhs, 'B');
    assert_eq!(g.rules[2].rhs_all, " @@@");
    assert_eq!((g.rules[2].ro, g.rules[2].co), (0, 1));
}

#[test]
fn short_headers_add_no_rule() {
    let g = load(&["=sA", "@@@"]);
    assert_eq!(g.rules.len(), 0);
    assert!(!g.nonterminals.contains('A'));
}

#[test]
fn comments_help_and_sounds() {
    let g = load(&["# a remark", "#!Press T", "#=bboom.ogg", "#=cclick.ogg", "#=bbang.ogg"]);
    assert_eq!(g.help, "Press T");
    assert_eq!(g.sounds.len(), 2);
    assert_eq!(g.sounds[0], ('b', "bang.ogg".to_string()));
    assert_eq!(g.sounds[1], ('c', "click.ogg".to_string()));
    assert_eq!(g.rules.len(), 0);
}

#[test]
fn seeds_with_defaults_and_default_seed() {
    let g = load(&["^Q", "^RuX"]);
    assert_eq!(g.seeds, vec![Start { ul: 'c', lr: 'c', c: 'Q' }, Start { ul: 'u', lr: 'X', c: 'R' }]);
    let empty = load(&["=sATX", "@@@"]);
    assert_eq!(empty.seeds, vec![Start { ul: 'c', lr: 'c', c: 'c' }]);
}

#[test]
fn loading_twice_gives_equal_rules_and_seeds() {
    let lines = ["^Acc", "^Bul", "=sATX35B*z 7 9", "@*@", "@", "=tBTY", "@@@"];
    let a = load(&lines);
    let b = load(&lines);
    assert_eq!(a.rules.len(), b.rules.len());
    for (x, y) in a.rules.iter().zip(b.rules.iter()) {
        assert_eq!(x, y);
    }
    assert_eq!(a.seeds, b.seeds);
}
