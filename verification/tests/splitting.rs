use which_failed::{
    same_text, source_text, split_conditions, split_operands, Condition, Delimiter, Failure,
    FailureKind, Operand, Spacing, Token, TokenKind,
};

fn delimiter_of(group: &proc_macro2::Group) -> Delimiter {
    match group.delimiter() {
        proc_macro2::Delimiter::Parenthesis => Delimiter::Parenthesis,
        proc_macro2::Delimiter::Brace => Delimiter::Brace,
        proc_macro2::Delimiter::Bracket => Delimiter::Bracket,
        proc_macro2::Delimiter::None => Delimiter::Invisible,
    }
}

fn guard(source: &str) -> Vec<Token> {
    let stream: proc_macro2::TokenStream = source.parse().unwrap();
    stream
        .into_iter()
        .map(|tree| {
            let text = tree.to_string();
            let kind = match &tree {
                proc_macro2::TokenTree::Ident(_) => TokenKind::Ident,
                proc_macro2::TokenTree::Literal(_) => TokenKind::Literal,
                proc_macro2::TokenTree::Group(group) => TokenKind::Group(delimiter_of(group)),
                proc_macro2::TokenTree::Punct(punct) => match punct.spacing() {
                    proc_macro2::Spacing::Alone => TokenKind::Punct(Spacing::Alone),
                    proc_macro2::Spacing::Joint => TokenKind::Punct(Spacing::Joint),
                },
            };
            Token { kind, text }
        })
        .collect()
}

fn ident(text: &str) -> Token {
    Token { kind: TokenKind::Ident, text: text.to_string() }
}

fn punct(text: &str, spacing: Spacing) -> Token {
    Token { kind: TokenKind::Punct(spacing), text: text.to_string() }
}

fn texts(conditions: &[Condition]) -> Vec<String> {
    conditions.iter().map(|condition| condition.text.clone()).collect()
}

#[test]
fn same_text_compares_characters() {
    assert!(same_text("", ""));
    assert!(same_text("if", "if"));
    assert!(same_text("é&", "é&"));
    assert!(!same_text("if", "iff"));
    assert!(!same_text("if", "of"));
    assert!(!same_text("&", ""));
}

#[test]
fn token_kinds_are_told_apart() {
    assert!(punct("&", Spacing::Joint).is_and());
    assert!(punct("&", Spacing::Alone).is_and());
    assert!(!punct("|", Spacing::Alone).is_and());
    assert!(!ident("&").is_and());
    assert!(punct("|", Spacing::Joint).is_or());
    assert!(punct("|", Spacing::Alone).is_or());
    assert!(!punct("&", Spacing::Alone).is_or());
    assert!(!ident("|").is_or());
    assert!(punct(",", Spacing::Alone).is_comma());
    assert!(!punct(";", Spacing::Alone).is_comma());
    assert!(ident("if").is_guard_keyword());
    assert!(!ident("r#if").is_guard_keyword());
    assert!(!punct("if", Spacing::Alone).is_guard_keyword());
    assert!(punct("<", Spacing::Joint).is_joint());
    assert!(!punct("<", Spacing::Alone).is_joint());
    assert!(!ident("a").is_joint());
    let block = Token { kind: TokenKind::Group(Delimiter::Brace), text: "{ }".to_string() };
    let paren = Token { kind: TokenKind::Group(Delimiter::Parenthesis), text: "()".to_string() };
    assert!(block.opens_block());
    assert!(!paren.opens_block());
}

#[test]
fn a_cloned_token_is_the_same_token() {
    let token = Token { kind: TokenKind::Group(Delimiter::Bracket), text: "[1, 2]".to_string() };
    assert_eq!(token.clone(), token);
}

#[test]
fn source_text_puts_a_space_between_tokens() {
    assert_eq!(source_text(&guard("val<4")), "val < 4");
    assert_eq!(source_text(&guard("a . b ( c )")), "a . b (c)");
    assert_eq!(source_text(&Vec::new()), "");
    assert_eq!(source_text(&vec![ident("alone")]), "alone");
}

#[test]
fn source_text_keeps_joint_characters_together() {
    assert_eq!(source_text(&guard("a <= b")), "a <= b");
    assert_eq!(source_text(&guard("a == b != c")), "a == b != c");
    let apart = vec![ident("a"), punct("=", Spacing::Alone), punct("=", Spacing::Alone), ident("b")];
    assert_eq!(source_text(&apart), "a = = b");
    let joint = vec![ident("a"), punct("=", Spacing::Joint), punct("=", Spacing::Alone), ident("b")];
    assert_eq!(source_text(&joint), "a == b");
}

#[test]
fn operands_are_cut_at_each_double_and() {
    let found = split_operands(&guard("wife && admin && open"));
    assert_eq!(
        found,
        Ok(vec![
            Operand { start: 0, tokens: vec![ident("wife")] },
            Operand { start: 3, tokens: vec![ident("admin")] },
            Operand { start: 6, tokens: vec![ident("open")] },
        ])
    );
}

#[test]
fn operands_of_nothing_are_none() {
    assert_eq!(split_operands(&Vec::new()), Ok(Vec::new()));
    assert_eq!(split_conditions(&Vec::new()), Ok(Vec::new()));
}

#[test]
fn a_single_and_is_no_cut() {
    let found = split_operands(&guard("a & b && c")).unwrap();
    assert_eq!(found.len(), 2);
    assert_eq!(found[0].start, 0);
    assert_eq!(source_text(&found[0].tokens), "a & b");
    assert_eq!(found[1].start, 5);
    assert_eq!(source_text(&found[1].tokens), "c");
    let conditions = split_conditions(&guard("flags & mask == mask && ready")).unwrap();
    assert_eq!(texts(&conditions), vec!["flags & mask == mask", "ready"]);
}

#[test]
fn two_ands_apart_are_a_cut_too() {
    let tokens = vec![
        ident("a"),
        punct("&", Spacing::Alone),
        punct("&", Spacing::Alone),
        ident("b"),
    ];
    let conditions = split_conditions(&tokens).unwrap();
    assert_eq!(texts(&conditions), vec!["a", "b"]);
}

#[test]
fn a_third_and_stays_with_what_follows() {
    let found = split_operands(&guard("a &&& b")).unwrap();
    assert_eq!(found.len(), 2);
    assert_eq!(found[1].start, 3);
    assert_eq!(source_text(&found[1].tokens), "& b");
    let conditions = split_conditions(&guard("a &&& b")).unwrap();
    assert_eq!(texts(&conditions), vec!["a", "& b"]);
}

fn refused(kind: FailureKind, position: usize) -> Failure {
    Failure { kind, position, source: String::new() }
}

#[test]
fn an_operator_at_the_start_lacks_an_operand() {
    assert_eq!(split_conditions(&guard("&& a")), Err(refused(FailureKind::MissingOperand, 0)));
    assert_eq!(split_operands(&guard("&& a")), Err(refused(FailureKind::MissingOperand, 0)));
    assert_eq!(split_conditions(&guard("&& a && b")), Err(refused(FailureKind::MissingOperand, 0)));
}

#[test]
fn an_operator_at_the_end_lacks_an_operand() {
    assert_eq!(split_conditions(&guard("a &&")), Err(refused(FailureKind::MissingOperand, 1)));
    assert_eq!(split_operands(&guard("a &&")), Err(refused(FailureKind::MissingOperand, 1)));
    assert_eq!(
        split_conditions(&guard("a && b > 1 &&")),
        Err(refused(FailureKind::MissingOperand, 6))
    );
}

#[test]
fn an_operator_after_an_operator_lacks_an_operand() {
    assert_eq!(split_conditions(&guard("a && && b")), Err(refused(FailureKind::MissingOperand, 3)));
    assert_eq!(split_conditions(&guard("a &&&& b")), Err(refused(FailureKind::MissingOperand, 3)));
    assert_eq!(
        split_operands(&guard("a && b && && c")),
        Err(refused(FailureKind::MissingOperand, 6))
    );
}

#[test]
fn operators_alone_lack_their_operands() {
    assert_eq!(split_conditions(&guard("&&")), Err(refused(FailureKind::MissingOperand, 0)));
    assert_eq!(split_operands(&guard("&& &&")), Err(refused(FailureKind::MissingOperand, 0)));
}

#[test]
fn the_first_stray_operator_is_the_one_reported() {
    assert_eq!(split_conditions(&guard("&& a &&")), Err(refused(FailureKind::MissingOperand, 0)));
    assert_eq!(
        split_conditions(&guard("a && && b &&")),
        Err(refused(FailureKind::MissingOperand, 3))
    );
}

#[test]
fn an_or_beside_an_and_is_refused() {
    assert_eq!(
        split_conditions(&guard("a || b && c")),
        Err(refused(FailureKind::MixedOperators, 1))
    );
    assert_eq!(
        split_conditions(&guard("a && b || c")),
        Err(refused(FailureKind::MixedOperators, 4))
    );
    assert_eq!(
        split_conditions(&guard("a && b || c && d || e")),
        Err(refused(FailureKind::MixedOperators, 4))
    );
    let apart = vec![
        ident("a"),
        punct("|", Spacing::Alone),
        punct("|", Spacing::Alone),
        ident("b"),
        punct("&", Spacing::Joint),
        punct("&", Spacing::Alone),
        ident("c"),
    ];
    assert_eq!(split_conditions(&apart), Err(refused(FailureKind::MixedOperators, 1)));
}

#[test]
fn an_or_alone_is_one_condition() {
    assert_eq!(texts(&split_conditions(&guard("a || b")).unwrap()), vec!["a || b"]);
    assert_eq!(texts(&split_conditions(&guard("a || b || c")).unwrap()), vec!["a || b || c"]);
}

#[test]
fn an_or_inside_a_group_is_no_matter() {
    let conditions = split_conditions(&guard("(a || b) && c && f(d || e)")).unwrap();
    assert_eq!(texts(&conditions), vec!["(a || b)", "c", "f (d || e)"]);
}

#[test]
fn a_single_bar_is_no_or() {
    let conditions = split_conditions(&guard("a | b && c")).unwrap();
    assert_eq!(texts(&conditions), vec!["a | b", "c"]);
    assert!(split_operands(&guard("a || b && c")).is_ok());
}

#[test]
fn a_stray_operator_fails_before_a_mixed_one() {
    assert_eq!(
        split_conditions(&guard("a || b &&")),
        Err(refused(FailureKind::MissingOperand, 4))
    );
    assert_eq!(
        split_conditions(&guard("&& a || b")),
        Err(refused(FailureKind::MissingOperand, 0))
    );
}

#[test]
fn a_mixed_operator_fails_before_a_bad_operand() {
    assert_eq!(
        split_conditions(&guard("+ && b || c")),
        Err(refused(FailureKind::MixedOperators, 4))
    );
    assert_eq!(
        split_conditions(&guard("a b || c && +")),
        Err(refused(FailureKind::MixedOperators, 2))
    );
}

#[test]
fn a_stray_operator_fails_before_a_bad_operand() {
    assert_eq!(
        split_conditions(&guard("a b && c &&")),
        Err(refused(FailureKind::MissingOperand, 5))
    );
}

#[test]
fn a_group_is_never_cut() {
    let conditions = split_conditions(&guard("(a && b) && c")).unwrap();
    assert_eq!(conditions.len(), 2);
    assert_eq!(conditions[0].text, "(a && b)");
    assert_eq!(conditions[0].tokens.len(), 1);
    assert_eq!(conditions[0].tokens[0].kind, TokenKind::Group(Delimiter::Parenthesis));
    assert_eq!(conditions[1].text, "c");
}

#[test]
fn groups_of_every_kind_are_whole() {
    let conditions = split_conditions(&guard("f(x && y) && v[i && j] && { p && q }")).unwrap();
    assert_eq!(texts(&conditions), vec!["f (x && y)", "v [i && j]", "{ p && q }"]);
}

#[test]
fn conditions_keep_the_order_of_the_guard() {
    let conditions = split_conditions(&guard("val > 3 && val < 4 && val == 5")).unwrap();
    assert_eq!(texts(&conditions), vec!["val > 3", "val < 4", "val == 5"]);
    assert_eq!(conditions[1].tokens, guard("val < 4"));
}

#[test]
fn the_text_is_the_parsers_not_the_tokens() {
    let cramped = Token {
        kind: TokenKind::Group(Delimiter::Parenthesis),
        text: "(x&&y)".to_string(),
    };
    let conditions = split_conditions(&vec![cramped.clone()]).unwrap();
    assert_eq!(conditions.len(), 1);
    assert_eq!(conditions[0].text, "(x && y)");
    assert_eq!(conditions[0].tokens, vec![cramped]);
}

#[test]
fn the_same_operand_has_the_same_text_anywhere() {
    let first = split_conditions(&guard("a.len() > 1 && b")).unwrap();
    let second = split_conditions(&guard("c && d && a.len() > 1")).unwrap();
    let again = split_conditions(&guard("a.len() > 1 && b")).unwrap();
    assert_eq!(first[0].tokens, second[2].tokens);
    assert_eq!(first[0].text, second[2].text);
    assert_eq!(first[0].text, "a . len () > 1");
    assert_eq!(first, again);
}

#[test]
fn an_operand_that_is_no_expression_fails() {
    let failure = split_conditions(&guard("a && + && nothing"));
    assert_eq!(
        failure,
        Err(Failure {
            kind: FailureKind::MalformedCondition,
            position: 3,
            source: "+".to_string(),
        })
    );
}

#[test]
fn the_first_bad_operand_is_the_one_reported() {
    let failure = split_conditions(&guard("a b && c d && e")).unwrap_err();
    assert_eq!(failure.kind, FailureKind::MalformedCondition);
    assert_eq!(failure.position, 0);
    assert_eq!(failure.source, "a b");
    let later = split_conditions(&guard("a && b && let")).unwrap_err();
    assert_eq!(later.position, 6);
    assert_eq!(later.source, "let");
}

#[test]
fn a_condition_from_a_parsed_text() {
    let operand = Operand { start: 4, tokens: guard("x<1") };
    let made = Condition::from_parsed(&operand, "x < 1".to_string(), Ok("x < 1".to_string()));
    assert_eq!(made, Ok(Condition { tokens: guard("x < 1"), text: "x < 1".to_string() }));
}

#[test]
fn a_failure_from_a_refused_text() {
    let operand = Operand { start: 4, tokens: guard("x <") };
    let refused = syn::Error::new(proc_macro2::Span::call_site(), "expected expression");
    let made = Condition::from_parsed(&operand, "x <".to_string(), Err(refused));
    assert_eq!(
        made,
        Err(Failure {
            kind: FailureKind::MalformedCondition,
            position: 4,
            source: "x <".to_string(),
        })
    );
}

#[test]
fn a_condition_of_an_operand() {
    let operand = Operand { start: 0, tokens: guard("!done") };
    let condition = Condition::parse(&operand).unwrap();
    assert_eq!(condition.text, "! done");
    assert_eq!(condition.tokens, operand.tokens);
    let bad = Operand { start: 7, tokens: guard("done !") };
    let failure = Condition::parse(&bad).unwrap_err();
    assert_eq!(failure.position, 7);
    assert_eq!(failure.source, "done !");
}

#[test]
fn the_text_of_lexed_tokens_is_their_source() {
    for source in [
        "wife && admin && open",
        "val > 3 && val < 4 && val == 5",
        "(a && b) && c",
        "a.len() > 1 && !b && c[0] <= d::E",
        "name == \"x y\" && f(1, 2.0) && (|x| x + 1)(2) == 3",
    ] {
        let conditions = split_conditions(&guard(source)).unwrap();
        assert!(!conditions.is_empty());
        for condition in &conditions {
            assert_eq!(condition.text, source_text(&condition.tokens));
        }
    }
}

#[test]
fn operands_lie_in_order_with_an_operator_between() {
    let tokens = guard("a + b && (c && d) && e & f && g");
    let found = split_operands(&tokens).unwrap();
    assert_eq!(found.len(), 4);
    let mut end = 0;
    for (index, operand) in found.iter().enumerate() {
        if index > 0 {
            assert_eq!(end + 2, operand.start);
        } else {
            assert_eq!(operand.start, 0);
        }
        assert!(!operand.tokens.is_empty());
        end = operand.start + operand.tokens.len();
        assert_eq!(operand.tokens, tokens[operand.start..end].to_vec());
    }
    assert_eq!(end, tokens.len());
}
