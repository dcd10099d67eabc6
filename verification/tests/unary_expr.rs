use rslint::diagnostic::DiagnosticKind;
use rslint::lexer::token::TokenType;
use rslint::parser::cst::expr::{
    Expr, GroupingExpr, LiteralExpr, LiteralWhitespace, MemberExpr, UnaryExpr, UpdateExpr,
};
use rslint::parser::Parser;
use rslint::span::Span;

/// Parses `src` as one expression.
fn expr(src: &str) -> Expr {
    Parser::with_source(src, 0, true)
        .unwrap()
        .parse_expr(None)
        .unwrap()
}

/// The span of the first occurrence of `part` in `src`.
fn span(src: &str, part: &str) -> Span {
    let start = src.find(part).unwrap();
    Span::new(start, start + part.len())
}

fn piece(src: &str, ws: &LiteralWhitespace) -> String {
    let mut text = String::new();
    text.push_str(&src[ws.before.start..ws.before.end]);
    text.push_str(&src[ws.before.end..ws.after.start]);
    text.push_str(&src[ws.after.start..ws.after.end]);
    text
}

/// Puts the source back together from the tree: for every token in order,
/// the whitespace before it, the token, and the whitespace after it.
fn text(src: &str, e: &Expr) -> String {
    match e {
        Expr::This(l)
        | Expr::Number(l)
        | Expr::Null(l)
        | Expr::Regex(l)
        | Expr::Identifier(l)
        | Expr::True(l)
        | Expr::False(l) => piece(src, &l.whitespace),
        Expr::Member(m) => {
            format!(
                "{}{}{}",
                text(src, &m.object),
                piece(src, &m.whitespace),
                piece(src, &m.property.whitespace)
            )
        }
        Expr::Unary(u) => format!("{}{}", piece(src, &u.whitespace), text(src, &u.object)),
        Expr::Update(u) => {
            if u.prefix {
                format!("{}{}", piece(src, &u.whitespace), text(src, &u.object))
            } else {
                format!("{}{}", text(src, &u.object), piece(src, &u.whitespace))
            }
        }
        Expr::Grouping(g) => format!(
            "{}{}{}",
            piece(src, &g.opening_paren_whitespace),
            text(src, &g.expr),
            piece(src, &g.closing_paren_whitespace)
        ),
    }
}

#[test]
fn unary_prefix_update() {
    let mut parser = Parser::with_source("--foo \n++5", 0, true).unwrap();
    let first = parser.parse_unary_expr(None);
    let second = parser.parse_unary_expr(None);
    assert_eq!(
        first,
        Ok(Expr::Update(UpdateExpr {
            span: Span::new(0, 5),
            object: Box::new(Expr::Identifier(LiteralExpr {
                span: Span::new(2, 5),
                whitespace: LiteralWhitespace {
                    before: Span::new(2, 2),
                    after: Span::new(5, 6),
                }
            })),
            prefix: true,
            op: TokenType::Decrement,
            whitespace: LiteralWhitespace {
                before: Span::new(0, 0),
                after: Span::new(2, 2)
            }
        }))
    );
    assert_eq!(
        second,
        Ok(Expr::Update(UpdateExpr {
            span: Span::new(7, 10),
            object: Box::new(Expr::Number(LiteralExpr {
                span: Span::new(9, 10),
                whitespace: LiteralWhitespace {
                    before: Span::new(9, 9),
                    after: Span::new(10, 10),
                }
            })),
            prefix: true,
            op: TokenType::Increment,
            whitespace: LiteralWhitespace {
                before: Span::new(6, 7),
                after: Span::new(9, 9)
            }
        }))
    );
}

#[test]
fn postfix_unary_valid_target() {
    let mut parser = Parser::with_source("mark++", 0, true).unwrap();
    let res = parser.parse_unary_expr(None).unwrap();
    assert_eq!(
        res,
        Expr::Update(UpdateExpr {
            span: Span::new(0, 6),
            object: Box::new(Expr::Identifier(LiteralExpr {
                span: Span::new(0, 4),
                whitespace: LiteralWhitespace {
                    before: Span::new(0, 0),
                    after: Span::new(4, 4),
                }
            })),
            prefix: false,
            op: TokenType::Increment,
            whitespace: LiteralWhitespace {
                before: Span::new(4, 4),
                after: Span::new(6, 6),
            }
        })
    );
}

#[test]
fn postfix_unary_with_whitespace() {
    let mut parser = Parser::with_source("\nmk -- \n\n", 0, true).unwrap();
    let res = parser.parse_unary_expr(None).unwrap();
    assert_eq!(
        res,
        Expr::Update(UpdateExpr {
            span: Span::new(1, 6),
            object: Box::new(Expr::Identifier(LiteralExpr {
                span: Span::new(1, 3),
                whitespace: LiteralWhitespace {
                    before: Span::new(0, 1),
                    after: Span::new(3, 4)
                }
            })),
            prefix: false,
            op: TokenType::Decrement,
            whitespace: LiteralWhitespace {
                before: Span::new(4, 4),
                after: Span::new(6, 7),
            }
        })
    )
}

#[test]
fn postfix_unary_invalid_target() {
    let mut parser = Parser::with_source("true++", 0, true).unwrap();
    let res = parser.parse_unary_expr(None).unwrap();
    assert_eq!(
        res,
        Expr::Update(UpdateExpr {
            span: Span::new(0, 6),
            object: Box::new(Expr::True(LiteralExpr {
                span: Span::new(0, 4),
                whitespace: LiteralWhitespace {
                    before: Span::new(0, 0),
                    after: Span::new(4, 4),
                }
            })),
            prefix: false,
            op: TokenType::Increment,
            whitespace: LiteralWhitespace {
                before: Span::new(4, 4),
                after: Span::new(6, 6),
            }
        })
    );
    assert_eq!(parser.errors.len(), 1);
}

#[test]
fn prefix_update_valid_target() {
    let mut parser = Parser::with_source(" ++ foo ", 0, true).unwrap();
    let res = parser.parse_unary_expr(None).unwrap();
    assert_eq!(
        res,
        Expr::Update(UpdateExpr {
            span: Span::new(1, 7),
            object: Box::new(Expr::Identifier(LiteralExpr {
                span: Span::new(4, 7),
                whitespace: LiteralWhitespace {
                    before: Span::new(4, 4),
                    after: Span::new(7, 8)
                }
            })),
            prefix: true,
            op: TokenType::Increment,
            whitespace: LiteralWhitespace {
                before: Span::new(0, 1),
                after: Span::new(3, 4),
            }
        })
    )
}

#[test]
fn prefix_unary() {
    let mut parser = Parser::with_source("delete the_world", 0, true).unwrap();
    let res = parser.parse_unary_expr(None).unwrap();
    assert_eq!(
        res,
        Expr::Unary(UnaryExpr {
            span: Span::new(0, 16),
            object: Box::new(Expr::Identifier(LiteralExpr {
                span: Span::new(7, 16),
                whitespace: LiteralWhitespace {
                    before: Span::new(7, 7),
                    after: Span::new(16, 16)
                }
            })),
            op: TokenType::Delete,
            whitespace: LiteralWhitespace {
                before: Span::new(0, 0),
                after: Span::new(6, 7)
            }
        })
    )
}

#[test]
fn grouping() {
    assert_eq!(
        expr("(/aa/g) "),
        Expr::Grouping(GroupingExpr {
            span: span("(/aa/g) ", "(/aa/g)"),
            expr: Box::new(Expr::Regex(LiteralExpr {
                span: span("(/aa/g) ", "/aa/g"),
                whitespace: LiteralWhitespace {
                    before: Span::new(1, 1),
                    after: Span::new(6, 6),
                }
            })),
            opening_paren_whitespace: LiteralWhitespace {
                before: Span::new(0, 0),
                after: Span::new(1, 1),
            },
            closing_paren_whitespace: LiteralWhitespace {
                before: Span::new(6, 6),
                after: Span::new(7, 8),
            }
        })
    )
}

#[test]
fn nested_grouping() {
    assert_eq!(
        expr("((foo))"),
        Expr::Grouping(GroupingExpr {
            span: span("((foo))", "((foo))"),
            expr: Box::new(Expr::Grouping(GroupingExpr {
                span: span("((foo))", "(foo)"),
                expr: Box::new(Expr::Identifier(LiteralExpr {
                    span: span("((foo))", "foo"),
                    whitespace: LiteralWhitespace {
                        before: Span::new(2, 2),
                        after: Span::new(5, 5),
                    },
                })),
                opening_paren_whitespace: LiteralWhitespace {
                    before: Span::new(1, 1),
                    after: Span::new(2, 2),
                },
                closing_paren_whitespace: LiteralWhitespace {
                    before: Span::new(5, 5),
                    after: Span::new(6, 6),
                },
            })),
            opening_paren_whitespace: LiteralWhitespace {
                before: Span::new(0, 0),
                after: Span::new(1, 1),
            },
            closing_paren_whitespace: LiteralWhitespace {
                before: Span::new(6, 6),
                after: Span::new(7, 7),
            }
        })
    )
}

#[test]
fn postfix_without_leading_linebreak() {
    let mut parser = Parser::with_source("mk -- \n\n", 0, true).unwrap();
    let res = parser.parse_unary_expr(None).unwrap();
    assert_eq!(
        res,
        Expr::Update(UpdateExpr {
            span: Span::new(0, 5),
            object: Box::new(Expr::Identifier(LiteralExpr {
                span: Span::new(0, 2),
                whitespace: LiteralWhitespace {
                    before: Span::new(0, 0),
                    after: Span::new(2, 3)
                }
            })),
            prefix: false,
            op: TokenType::Decrement,
            whitespace: LiteralWhitespace {
                before: Span::new(3, 3),
                after: Span::new(5, 6),
            }
        })
    );
    assert_eq!(parser.errors.len(), 0);
}

#[test]
fn linebreak_suppresses_postfix() {
    let mut parser = Parser::with_source("foo \n++", 0, true).unwrap();
    let res = parser.parse_unary_expr(None).unwrap();
    assert_eq!(
        res,
        Expr::Identifier(LiteralExpr {
            span: Span::new(0, 3),
            whitespace: LiteralWhitespace {
                before: Span::new(0, 0),
                after: Span::new(3, 4),
            }
        })
    );
    // The cursor is still in front of the operator.
    assert_eq!(parser.cur_tok().token_type, TokenType::Linebreak);
    assert_eq!(parser.cur_tok().lexeme, Span::new(4, 5));
    let (next, had_linebreak) = parser.lookahead();
    assert_eq!(next.token_type, TokenType::Increment);
    assert_eq!(next.lexeme, Span::new(5, 7));
    assert!(had_linebreak);
    assert_eq!(parser.errors.len(), 0);
}

#[test]
fn operand_is_returned_when_no_operator_follows() {
    let mut parser = Parser::with_source("a ]++", 0, true).unwrap();
    let res = parser.parse_unary_expr(None).unwrap();
    assert_eq!(
        res,
        Expr::Identifier(LiteralExpr {
            span: Span::new(0, 1),
            whitespace: LiteralWhitespace {
                before: Span::new(0, 0),
                after: Span::new(1, 2),
            }
        })
    );
    assert_eq!(parser.cur_tok().token_type, TokenType::BracketClose);
}

#[test]
fn invalid_prefix_target_is_reported_once() {
    let mut parser = Parser::with_source("++5", 3, true).unwrap();
    let res = parser.parse_unary_expr(None);
    assert!(res.is_ok());
    assert_eq!(parser.errors.len(), 1);
    let err = &parser.errors[0];
    assert_eq!(err.kind, DiagnosticKind::InvalidTargetExpression);
    assert_eq!(err.file_id, 3);
    assert_eq!(err.rule, None);
    assert_eq!(err.title, "Invalid left hand side expression for prefix Increment");
    let primary = err.primary.as_ref().unwrap();
    assert_eq!(primary.span, Span::new(2, 3));
    assert_eq!(primary.message, "Not a valid expression for the operator");
    assert_eq!(err.secondary.len(), 1);
    assert_eq!(err.secondary[0].span, Span::new(0, 2));
    assert_eq!(err.secondary[0].message, "Prefix Increment operation used here");
    assert_eq!(err.help, None);
}

#[test]
fn invalid_postfix_target_diagnostic() {
    let mut parser = Parser::with_source("true --", 0, true).unwrap();
    parser.parse_unary_expr(None).unwrap();
    assert_eq!(parser.errors.len(), 1);
    let err = &parser.errors[0];
    assert_eq!(err.kind, DiagnosticKind::InvalidTargetExpression);
    assert_eq!(err.title, "Invalid left hand side expression for postfix Decrement");
    assert_eq!(err.primary.as_ref().unwrap().span, Span::new(0, 4));
    assert_eq!(err.secondary[0].span, Span::new(5, 7));
    assert_eq!(err.secondary[0].message, "Postfix Decrement used here");
}

#[test]
fn chained_prefix_reports_the_outer_operator() {
    // The inner `++` has a valid target; the outer one is applied to an
    // update expression, which is none.
    let mut parser = Parser::with_source("++ ++ x", 0, true).unwrap();
    let res = parser.parse_unary_expr(None).unwrap();
    match &res {
        Expr::Update(outer) => {
            assert!(outer.prefix);
            assert_eq!(outer.span, Span::new(0, 7));
            match &*outer.object {
                Expr::Update(inner) => {
                    assert!(inner.prefix);
                    assert_eq!(inner.span, Span::new(3, 7));
                }
                other => panic!("unexpected operand {:?}", other),
            }
        }
        other => panic!("unexpected node {:?}", other),
    }
    assert_eq!(parser.errors.len(), 1);
    assert_eq!(
        parser.errors[0].primary.as_ref().unwrap().span,
        Span::new(3, 7)
    );
    assert_eq!(parser.errors[0].secondary[0].span, Span::new(0, 2));
}

#[test]
fn diagnostics_come_operand_first() {
    let mut parser = Parser::with_source("++ --5", 0, true).unwrap();
    parser.parse_unary_expr(None).unwrap();
    assert_eq!(parser.errors.len(), 2);
    assert_eq!(
        parser.errors[0].title,
        "Invalid left hand side expression for prefix Decrement"
    );
    assert_eq!(
        parser.errors[1].title,
        "Invalid left hand side expression for prefix Increment"
    );
}

#[test]
fn delete_identifier_in_strict_mode() {
    let mut parser = Parser::with_source("delete the_world", 0, true).unwrap();
    parser.state.strict = Some(Span::new(0, 0));
    assert!(parser.is_strict());
    let res = parser.parse_unary_expr(None);
    assert!(res.is_ok());
    assert_eq!(parser.errors.len(), 1);
    let err = &parser.errors[0];
    assert_eq!(err.kind, DiagnosticKind::IdentifierDeletion);
    assert_eq!(
        err.title,
        "`delete` cannot be applied to identifiers in strict mode code"
    );
    let primary = err.primary.as_ref().unwrap();
    assert_eq!(primary.span, Span::new(7, 16));
    assert_eq!(primary.message, "Attempting to delete this identifier is invalid");
    assert_eq!(
        err.help.as_deref(),
        Some("Help: `delete` is used to delete object properties")
    );
    assert!(err.secondary.is_empty());
}

#[test]
fn delete_is_not_reported_outside_strict_mode() {
    let mut parser = Parser::with_source("delete the_world", 0, true).unwrap();
    assert!(!parser.is_strict());
    parser.parse_unary_expr(None).unwrap();
    assert_eq!(parser.errors.len(), 0);
}

#[test]
fn delete_member_in_strict_mode_is_fine() {
    let mut parser = Parser::with_source("delete a.b", 0, true).unwrap();
    parser.state.strict = Some(Span::new(0, 0));
    parser.parse_unary_expr(None).unwrap();
    assert_eq!(parser.errors.len(), 0);
    let mut parser = Parser::with_source("void x", 0, true).unwrap();
    parser.state.strict = Some(Span::new(0, 0));
    parser.parse_unary_expr(None).unwrap();
    assert_eq!(parser.errors.len(), 0);
}

#[test]
fn every_unary_operator() {
    let cases = [
        ("delete x", TokenType::Delete),
        ("void x", TokenType::Void),
        ("typeof x", TokenType::Typeof),
        ("+x", TokenType::BinOp(rslint::lexer::token::BinToken::Add)),
        ("-x", TokenType::BinOp(rslint::lexer::token::BinToken::Subtract)),
        ("~x", TokenType::BitwiseNot),
        ("!x", TokenType::LogicalNot),
    ];
    for (src, op) in cases {
        match expr(src) {
            Expr::Unary(u) => {
                assert_eq!(u.op, op);
                assert_eq!(u.span, Span::new(0, src.len()));
            }
            other => panic!("unexpected node {:?}", other),
        }
    }
}

#[test]
fn member_access_is_a_valid_target() {
    let mut parser = Parser::with_source("a.b++", 0, true).unwrap();
    let res = parser.parse_unary_expr(None).unwrap();
    assert_eq!(
        res,
        Expr::Update(UpdateExpr {
            span: Span::new(0, 5),
            object: Box::new(Expr::Member(MemberExpr {
                span: Span::new(0, 3),
                object: Box::new(Expr::Identifier(LiteralExpr {
                    span: Span::new(0, 1),
                    whitespace: LiteralWhitespace {
                        before: Span::new(0, 0),
                        after: Span::new(1, 1),
                    }
                })),
                property: LiteralExpr {
                    span: Span::new(2, 3),
                    whitespace: LiteralWhitespace {
                        before: Span::new(2, 2),
                        after: Span::new(3, 3),
                    }
                },
                whitespace: LiteralWhitespace {
                    before: Span::new(1, 1),
                    after: Span::new(2, 2),
                }
            })),
            prefix: false,
            op: TokenType::Increment,
            whitespace: LiteralWhitespace {
                before: Span::new(3, 3),
                after: Span::new(5, 5),
            }
        })
    );
    assert_eq!(parser.errors.len(), 0);
}

#[test]
fn member_access_over_lines() {
    let src = "a \n . b . c";
    match expr(src) {
        Expr::Member(outer) => {
            assert_eq!(outer.span, Span::new(0, src.len()));
            assert_eq!(outer.property.span, span(src, "c"));
            assert_eq!(outer.whitespace.before, Span::new(8, 8));
            assert_eq!(outer.whitespace.after, Span::new(9, 10));
            match &*outer.object {
                Expr::Member(inner) => {
                    assert_eq!(inner.span, Span::new(0, 7));
                    assert_eq!(inner.whitespace.before, Span::new(2, 4));
                    assert_eq!(inner.whitespace.after, Span::new(5, 6));
                    assert_eq!(inner.property.span, Span::new(6, 7));
                    assert_eq!(inner.property.whitespace.after, Span::new(7, 8));
                }
                other => panic!("unexpected object {:?}", other),
            }
        }
        other => panic!("unexpected node {:?}", other),
    }
}

#[test]
fn assignment_targets() {
    assert!(expr("foo").is_valid_assign_target());
    assert!(expr("foo.bar").is_valid_assign_target());
    assert!(!expr("5").is_valid_assign_target());
    assert!(!expr("true").is_valid_assign_target());
    assert!(!expr("false").is_valid_assign_target());
    assert!(!expr("null").is_valid_assign_target());
    assert!(!expr("this").is_valid_assign_target());
    assert!(!expr("/a/").is_valid_assign_target());
    assert!(!expr("-foo").is_valid_assign_target());
    assert!(!expr("foo++").is_valid_assign_target());
    assert!(!expr("(foo)").is_valid_assign_target());
}

#[test]
fn node_spans() {
    assert_eq!(expr(" foo ").span(), Span::new(1, 4));
    assert_eq!(expr(" ( foo ) ").span(), Span::new(1, 8));
    assert_eq!(expr("! foo ").span(), Span::new(0, 5));
    assert_eq!(expr(" foo ++ ").span(), Span::new(1, 7));
    assert_eq!(expr("a . b ").span(), Span::new(0, 5));
}

#[test]
fn handed_in_leading_whitespace_is_not_consumed_again() {
    let mut parser = Parser::with_source("  foo", 0, true).unwrap();
    let leading = parser.whitespace(true);
    assert_eq!(leading, Span::new(0, 2));
    let res = parser.parse_unary_expr(Some(leading)).unwrap();
    assert_eq!(
        res,
        Expr::Identifier(LiteralExpr {
            span: Span::new(2, 5),
            whitespace: LiteralWhitespace {
                before: Span::new(0, 2),
                after: Span::new(5, 5),
            }
        })
    );
}

#[test]
fn missing_operand_fails() {
    let mut parser = Parser::with_source("++ ", 7, true).unwrap();
    let err = parser.parse_unary_expr(None).unwrap_err();
    assert_eq!(err.kind, DiagnosticKind::ExpectedExpression);
    assert_eq!(err.file_id, 7);
    assert_eq!(err.title, "Expected an expression");
    let primary = err.primary.unwrap();
    assert_eq!(primary.span, Span::new(3, 3));
    assert_eq!(primary.message, "This token cannot start an expression");
    assert_eq!(parser.errors.len(), 0);
    assert_eq!(parser.cur_tok().token_type, TokenType::EOF);
}

#[test]
fn token_that_starts_no_expression_fails() {
    let mut parser = Parser::with_source(" )", 0, true).unwrap();
    let err = parser.parse_unary_expr(None).unwrap_err();
    assert_eq!(err.kind, DiagnosticKind::ExpectedExpression);
    assert_eq!(err.primary.unwrap().span, Span::new(1, 2));
    // Nothing but the leading whitespace was consumed.
    assert_eq!(parser.cur_tok().token_type, TokenType::ParenClose);
}

#[test]
fn unclosed_group_fails() {
    let mut parser = Parser::with_source("(a ;", 0, true).unwrap();
    let err = parser.parse_unary_expr(None).unwrap_err();
    assert_eq!(err.kind, DiagnosticKind::UnterminatedGroup);
    assert_eq!(err.title, "Unterminated grouping expression");
    assert_eq!(err.primary.as_ref().unwrap().span, Span::new(3, 4));
    assert_eq!(
        err.primary.as_ref().unwrap().message,
        "Expected a closing parenthesis here"
    );
    assert_eq!(err.secondary[0].span, Span::new(0, 1));
    assert_eq!(err.secondary[0].message, "The group is opened here");
}

#[test]
fn dot_without_name_fails() {
    let mut parser = Parser::with_source("a.5", 0, true).unwrap();
    let err = parser.parse_unary_expr(None).unwrap_err();
    assert_eq!(err.kind, DiagnosticKind::ExpectedIdentifier);
    assert_eq!(err.title, "Expected a property name");
    assert_eq!(err.primary.as_ref().unwrap().span, Span::new(2, 3));
    assert_eq!(err.primary.as_ref().unwrap().message, "Expected an identifier here");
    assert_eq!(err.secondary[0].span, Span::new(1, 2));
    assert_eq!(err.secondary[0].message, "The property access starts here");
}

#[test]
fn diagnostics_survive_a_later_failure() {
    let mut parser = Parser::with_source("(++5 ;", 0, true).unwrap();
    let res = parser.parse_unary_expr(None);
    assert_eq!(res.unwrap_err().kind, DiagnosticKind::UnterminatedGroup);
    assert_eq!(parser.errors.len(), 1);
    assert_eq!(parser.errors[0].kind, DiagnosticKind::InvalidTargetExpression);
}

#[test]
fn malformed_source_is_refused() {
    let err = match Parser::with_source("ab @", 4, true) {
        Ok(_) => panic!("the source should not lex"),
        Err(e) => e,
    };
    assert_eq!(err.kind, DiagnosticKind::MalformedToken);
    assert_eq!(err.file_id, 4);
    assert_eq!(err.title, "Malformed token");
    assert_eq!(err.primary.as_ref().unwrap().span, Span::new(3, 4));
    assert_eq!(err.primary.as_ref().unwrap().message, "No token can start here");
}

#[test]
fn new_parser_starts_clean() {
    let parser = Parser::with_source("x", 9, false).unwrap();
    assert_eq!(parser.file_id, 9);
    assert!(!parser.discard_recovered);
    assert!(parser.errors.is_empty());
    assert_eq!(parser.state.strict, None);
    assert_eq!(parser.cur_tok().lexeme, Span::new(0, 1));
}

#[test]
fn text_is_read_back_from_the_tree() {
    let sources = [
        "--foo \n",
        " ++ foo ",
        "\nmk -- \n\n",
        "(/aa/g) ",
        " ( ( foo ) ) ",
        "delete  a . b\t. c ++ ",
        "! - + ~ typeof void x",
        "\n\n( \n a\n . b \n ) ++",
        "1.5",
        "this . x",
    ];
    for src in sources {
        let mut parser = Parser::with_source(src, 0, true).unwrap();
        let e = parser.parse_expr(None).unwrap();
        let end = parser.cur_tok().lexeme.start;
        assert_eq!(text(src, &e), &src[..end], "source {:?}", src);
    }
}

#[test]
fn text_is_read_back_for_each_of_two_parses() {
    let src = "--foo \n++5";
    let mut parser = Parser::with_source(src, 0, true).unwrap();
    let first = parser.parse_unary_expr(None).unwrap();
    let middle = parser.cur_tok().lexeme.start;
    let second = parser.parse_unary_expr(None).unwrap();
    let end = parser.cur_tok().lexeme.start;
    assert_eq!(middle, 6);
    assert_eq!(end, 10);
    assert_eq!(text(src, &first), &src[..middle]);
    assert_eq!(text(src, &second), &src[middle..end]);
}

#[test]
fn cursor_operations() {
    let mut parser = Parser::with_source("a \n b", 0, true).unwrap();
    assert_eq!(parser.cur_tok().token_type, TokenType::Identifier);
    assert_eq!(parser.lexer.peek(1).unwrap().token_type, TokenType::Whitespace);
    assert_eq!(parser.lexer.peek(5).unwrap().token_type, TokenType::EOF);
    assert_eq!(parser.lexer.peek(6), None);
    // Looking ahead has not moved the cursor.
    assert_eq!(parser.cur_tok().lexeme, Span::new(0, 1));
    parser.advance_lexer(false);
    assert_eq!(parser.cur_tok().token_type, TokenType::Whitespace);
    assert_eq!(parser.whitespace(false), Span::new(1, 2));
    assert_eq!(parser.cur_tok().token_type, TokenType::Linebreak);
    assert_eq!(parser.whitespace(true), Span::new(2, 4));
    assert_eq!(parser.cur_tok().lexeme, Span::new(4, 5));
    parser.advance_lexer(true);
    assert_eq!(parser.cur_tok().token_type, TokenType::EOF);
    parser.advance_lexer(false);
    assert_eq!(parser.cur_tok().token_type, TokenType::EOF);
    assert_eq!(parser.whitespace(true), Span::new(5, 5));
}

#[test]
fn advance_can_skip_whitespace() {
    let mut parser = Parser::with_source("a \n\t b", 0, true).unwrap();
    parser.advance_lexer(true);
    assert_eq!(parser.cur_tok().token_type, TokenType::Identifier);
    assert_eq!(parser.cur_tok().lexeme, Span::new(5, 6));
}
