use which_failed::{
    accepted, Delimiter, Failure, FailureKind, Spacing, Token, TokenKind, WhichFailedInput,
    GUARD_START,
};

fn delimiter_from(group: &proc_macro2::Group) -> Delimiter {
    match group.delimiter() {
        proc_macro2::Delimiter::Parenthesis => Delimiter::Parenthesis,
        proc_macro2::Delimiter::Brace => Delimiter::Brace,
        proc_macro2::Delimiter::Bracket => Delimiter::Bracket,
        proc_macro2::Delimiter::None => Delimiter::Invisible,
    }
}

fn lex(source: &str) -> Vec<Token> {
    let stream: proc_macro2::TokenStream = source.parse().unwrap();
    stream
        .into_iter()
        .map(|tree| {
            let text = tree.to_string();
            let kind = match &tree {
                proc_macro2::TokenTree::Ident(_) => TokenKind::Ident,
                proc_macro2::TokenTree::Literal(_) => TokenKind::Literal,
                proc_macro2::TokenTree::Group(group) => TokenKind::Group(delimiter_from(group)),
                proc_macro2::TokenTree::Punct(punct) => match punct.spacing() {
                    proc_macro2::Spacing::Alone => TokenKind::Punct(Spacing::Alone),
                    proc_macro2::Spacing::Joint => TokenKind::Punct(Spacing::Joint),
                },
            };
            Token { kind, text }
        })
        .collect()
}

fn refusal(kind: FailureKind, position: usize) -> Failure {
    Failure { kind, position, source: String::new() }
}

fn condition_texts(input: &WhichFailedInput) -> Vec<String> {
    input.conditions.iter().map(|condition| condition.text.clone()).collect()
}

#[test]
fn an_invocation_is_taken_apart() {
    let input = WhichFailedInput::parse(&lex(
        "name, if wife && admin && open { println!(\"{name} failed\"); }",
    ))
    .unwrap();
    assert_eq!(input.binding, "name");
    assert_eq!(condition_texts(&input), vec!["wife", "admin", "open"]);
    assert_eq!(input.body, "{ println ! (\"{name} failed\") ; }");
}

#[test]
fn the_guard_starts_after_three_tokens() {
    assert_eq!(GUARD_START, 3);
}

#[test]
fn nothing_at_all_misses_the_binding() {
    assert_eq!(
        WhichFailedInput::parse(&Vec::new()),
        Err(refusal(FailureKind::MissingBinding, 0))
    );
}

#[test]
fn a_literal_is_no_binding() {
    assert_eq!(
        WhichFailedInput::parse(&lex("\"name\", if a { }")),
        Err(refusal(FailureKind::MissingBinding, 0))
    );
    assert_eq!(
        WhichFailedInput::parse(&lex(", if a { }")),
        Err(refusal(FailureKind::MissingBinding, 0))
    );
}

#[test]
fn a_keyword_is_no_binding() {
    assert_eq!(
        WhichFailedInput::parse(&lex("if, if a { }")),
        Err(refusal(FailureKind::MissingBinding, 0))
    );
    assert_eq!(
        WhichFailedInput::parse(&lex("self, if a { }")),
        Err(refusal(FailureKind::MissingBinding, 0))
    );
    assert_eq!(
        WhichFailedInput::parse(&lex("_, if a { }")),
        Err(refusal(FailureKind::MissingBinding, 0))
    );
}

#[test]
fn a_keyword_fails_before_a_missing_comma() {
    assert_eq!(
        WhichFailedInput::parse(&lex("fn if a { }")),
        Err(refusal(FailureKind::MissingBinding, 0))
    );
}

#[test]
fn the_binding_is_what_the_parser_read() {
    let mut tokens = lex("name, if a { }");
    tokens[0].text = " name /* the one that failed */ ".to_string();
    let input = WhichFailedInput::parse(&tokens).unwrap();
    assert_eq!(input.binding, "name");
    let raw = WhichFailedInput::parse(&lex("r#type, if a { }")).unwrap();
    assert_eq!(raw.binding, "r#type");
}

#[test]
fn a_binding_of_two_words_is_refused() {
    let mut tokens = lex("name, if a { }");
    tokens[0].text = "two words".to_string();
    assert_eq!(WhichFailedInput::parse(&tokens), Err(refusal(FailureKind::MissingBinding, 0)));
}

#[test]
fn the_comma_is_required() {
    assert_eq!(
        WhichFailedInput::parse(&lex("name if a { }")),
        Err(refusal(FailureKind::MissingSeparator, 1))
    );
    assert_eq!(
        WhichFailedInput::parse(&lex("name; if a { }")),
        Err(refusal(FailureKind::MissingSeparator, 1))
    );
    assert_eq!(
        WhichFailedInput::parse(&lex("name")),
        Err(refusal(FailureKind::MissingSeparator, 1))
    );
}

#[test]
fn the_keyword_is_required() {
    assert_eq!(
        WhichFailedInput::parse(&lex("name, a && b { }")),
        Err(refusal(FailureKind::MissingKeyword, 2))
    );
    assert_eq!(
        WhichFailedInput::parse(&lex("name, while a { }")),
        Err(refusal(FailureKind::MissingKeyword, 2))
    );
    assert_eq!(
        WhichFailedInput::parse(&lex("name,")),
        Err(refusal(FailureKind::MissingKeyword, 2))
    );
}

#[test]
fn the_block_is_required() {
    assert_eq!(
        WhichFailedInput::parse(&lex("name, if a && b")),
        Err(refusal(FailureKind::MissingBlock, 7))
    );
    assert_eq!(
        WhichFailedInput::parse(&lex("name, if")),
        Err(refusal(FailureKind::MissingBlock, 3))
    );
    assert_eq!(
        WhichFailedInput::parse(&lex("name, if a (b)")),
        Err(refusal(FailureKind::MissingBlock, 5))
    );
}

#[test]
fn a_missing_block_fails_before_a_bad_condition() {
    assert_eq!(
        WhichFailedInput::parse(&lex("name, if + && b")),
        Err(refusal(FailureKind::MissingBlock, 7))
    );
}

#[test]
fn a_bad_condition_is_quoted() {
    assert_eq!(
        WhichFailedInput::parse(&lex("name, if a && b c && d { }")),
        Err(Failure {
            kind: FailureKind::MalformedCondition,
            position: 6,
            source: "b c".to_string(),
        })
    );
}

#[test]
fn a_stray_operator_is_found_in_the_guard() {
    assert_eq!(
        WhichFailedInput::parse(&lex("name, if a && { }")),
        Err(refusal(FailureKind::MissingOperand, 4))
    );
    assert_eq!(
        WhichFailedInput::parse(&lex("name, if && a { }")),
        Err(refusal(FailureKind::MissingOperand, 3))
    );
}

#[test]
fn mixed_operators_are_found_in_the_guard() {
    assert_eq!(
        WhichFailedInput::parse(&lex("name, if a && b || c { }")),
        Err(refusal(FailureKind::MixedOperators, 7))
    );
}

#[test]
fn a_bad_guard_fails_before_a_bad_block() {
    assert_eq!(
        WhichFailedInput::parse(&lex("name, if a && { let } more")),
        Err(refusal(FailureKind::MissingOperand, 4))
    );
    assert_eq!(
        WhichFailedInput::parse(&lex("name, if a || b && c { let }")),
        Err(refusal(FailureKind::MixedOperators, 4))
    );
}

#[test]
fn a_bad_condition_fails_before_a_bad_block() {
    let failure = WhichFailedInput::parse(&lex("name, if + { let } more")).unwrap_err();
    assert_eq!(failure.kind, FailureKind::MalformedCondition);
    assert_eq!(failure.position, 3);
    assert_eq!(failure.source, "+");
}

#[test]
fn the_block_holds_statements() {
    assert_eq!(
        WhichFailedInput::parse(&lex("name, if a { let }")),
        Err(refusal(FailureKind::MalformedBlock, 4))
    );
    assert_eq!(
        WhichFailedInput::parse(&lex("name, if a && b { fn }")),
        Err(refusal(FailureKind::MalformedBlock, 7))
    );
}

#[test]
fn a_bad_block_fails_before_what_follows_it() {
    assert_eq!(
        WhichFailedInput::parse(&lex("name, if a { let } more")),
        Err(refusal(FailureKind::MalformedBlock, 4))
    );
}

#[test]
fn nothing_may_follow_the_block() {
    assert_eq!(
        WhichFailedInput::parse(&lex("name, if a { } else { }")),
        Err(refusal(FailureKind::TrailingTokens, 5))
    );
    assert_eq!(
        WhichFailedInput::parse(&lex("name, if a { } ;")),
        Err(refusal(FailureKind::TrailingTokens, 5))
    );
}

#[test]
fn the_guard_ends_at_the_first_block() {
    assert_eq!(
        WhichFailedInput::parse(&lex("name, if a { } { }")),
        Err(refusal(FailureKind::TrailingTokens, 5))
    );
}

#[test]
fn braces_inside_parentheses_do_not_end_the_guard() {
    let input =
        WhichFailedInput::parse(&lex("name, if (Point { x: 1 }).x > 0 && ready { go(); }"))
            .unwrap();
    assert_eq!(condition_texts(&input), vec!["(Point { x : 1 }) . x > 0", "ready"]);
    assert_eq!(input.body, "{ go () ; }");
}

#[test]
fn an_empty_guard_parses_to_no_condition() {
    let input = WhichFailedInput::parse(&lex("name, if { }")).unwrap();
    assert_eq!(input.binding, "name");
    assert!(input.conditions.is_empty());
    assert_eq!(input.body, "{ }");
}

#[test]
fn the_body_is_what_the_parser_read() {
    let mut tokens = lex("name, if a { }");
    tokens[4].text = "{x}".to_string();
    let input = WhichFailedInput::parse(&tokens).unwrap();
    assert_eq!(input.body, "{ x }");
}

#[test]
fn an_accepted_text_is_kept() {
    assert_eq!(
        accepted(Ok("kept".to_string()), FailureKind::MalformedBlock, 9),
        Ok("kept".to_string())
    );
}

#[test]
fn a_refused_text_becomes_the_failure() {
    let refused = syn::Error::new(proc_macro2::Span::call_site(), "expected identifier");
    assert_eq!(
        accepted(Err(refused), FailureKind::MissingBinding, 0),
        Err(refusal(FailureKind::MissingBinding, 0))
    );
    let other = syn::Error::new(proc_macro2::Span::call_site(), "expected `}`");
    assert_eq!(
        accepted(Err(other), FailureKind::MalformedBlock, 9),
        Err(refusal(FailureKind::MalformedBlock, 9))
    );
}

#[test]
fn each_failure_has_its_message() {
    assert_eq!(
        refusal(FailureKind::MissingBinding, 0).message(),
        "expected a name to bind the failing condition to"
    );
    assert_eq!(refusal(FailureKind::MissingSeparator, 1).message(), "expected `,` after the name");
    assert_eq!(
        refusal(FailureKind::MissingKeyword, 2).message(),
        "expected `if` before the conditions"
    );
    assert_eq!(
        refusal(FailureKind::MissingBlock, 3).message(),
        "expected a block in braces after the conditions"
    );
    assert_eq!(
        refusal(FailureKind::MissingOperand, 4).message(),
        "expected a condition on each side of `&&`"
    );
    assert_eq!(
        refusal(FailureKind::MixedOperators, 4).message(),
        "expected parentheses where `||` stands beside `&&`"
    );
    assert_eq!(
        refusal(FailureKind::MalformedBlock, 4).message(),
        "expected statements between the braces"
    );
    assert_eq!(
        refusal(FailureKind::TrailingTokens, 5).message(),
        "unexpected tokens after the block"
    );
    assert_eq!(
        refusal(FailureKind::NoConditions, 3).message(),
        "at least one condition is required"
    );
    let quoted = Failure {
        kind: FailureKind::MalformedCondition,
        position: 3,
        source: "b c".to_string(),
    };
    assert_eq!(quoted.message(), "expected an expression, found `b c`");
}

#[test]
fn a_failure_made_at_a_place() {
    assert_eq!(Failure::at(FailureKind::TrailingTokens, 8), refusal(FailureKind::TrailingTokens, 8));
    let failure = Failure {
        kind: FailureKind::MalformedCondition,
        position: 3,
        source: "b c".to_string(),
    };
    assert_eq!(failure.clone(), failure);
}
