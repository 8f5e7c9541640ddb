use while_analyzer::ast::{Aexpr, Bexpr, LitInterval, Operator, PrePostOp, Statement};
use while_analyzer::desugar::parse_string;
use while_analyzer::lexer::{tokenize, ParserError, Token};

#[test]
fn parse_assignment_and_loop() {
    let stm = parse_string("x := 0; while x <= 1000 do x := x + 10;").expect("parses");
    match stm {
        Statement::Compose(s1, s2) => {
            assert!(matches!(*s1, Statement::Assign(ref x, ref a) if x == "x" && matches!(**a, Aexpr::Lit(LitInterval(0, 0)))));
            match *s2 {
                Statement::While(b, body) => {
                    assert!(matches!(*b, Bexpr::LessEq(_, _)));
                    assert!(matches!(*body, Statement::Assign(_, _)));
                },
                _ => panic!("expected a loop"),
            }
        },
        _ => panic!("expected a sequence"),
    }
}

#[test]
fn parse_desugars_comparisons() {
    let stm = parse_string("if x > 0 then y := 1; else y := -1;").expect("parses");
    match stm {
        Statement::IfThenElse(b, _, s2) => {
            assert!(matches!(*b, Bexpr::Not(ref inner) if matches!(**inner, Bexpr::LessEq(_, _))));
            match *s2 {
                Statement::Assign(_, a) => match *a {
                    Aexpr::BinOp(Operator::Sub, l, _) => assert!(matches!(*l, Aexpr::Lit(LitInterval(0, 0)))),
                    _ => panic!("expected a negation"),
                },
                _ => panic!("expected an assignment"),
            }
        },
        _ => panic!("expected a conditional"),
    }
}

#[test]
fn parse_increments_and_intervals() {
    let stm = parse_string("x := [1,10]; y += x++;").expect("parses");
    match stm {
        Statement::Compose(s1, s2) => {
            assert!(matches!(*s1, Statement::Assign(_, ref a) if matches!(**a, Aexpr::Lit(LitInterval(1, 10)))));
            match *s2 {
                Statement::Assign(y, a) => {
                    assert_eq!(y, "y");
                    match *a {
                        Aexpr::BinOp(Operator::Add, l, r) => {
                            assert!(matches!(*l, Aexpr::Var(ref v) if v == "y"));
                            assert!(matches!(*r, Aexpr::PostOp(PrePostOp::Inc, ref v) if v == "x"));
                        },
                        _ => panic!("expected a sum"),
                    }
                },
                _ => panic!("expected an assignment"),
            }
        },
        _ => panic!("expected a sequence"),
    }
}

#[test]
fn lexer_reads_symbols_longest_first() {
    let toks = tokenize("a<=b // comment\n--c").expect("lexes");
    let kinds: Vec<Token> = toks.into_iter().map(|(t, _)| t).collect();
    assert_eq!(
        kinds,
        vec![Token::Id("a".to_string()), Token::Lte, Token::Id("b".to_string()), Token::Dec, Token::Id("c".to_string())]
    );
}

#[test]
fn lexer_reports_unknown_symbol() {
    match tokenize("x := 1 # 2") {
        Err(ParserError::UnknownSymbol { pos, symbol }) => {
            assert_eq!(symbol, '#');
            assert_eq!(pos, (1, 8));
        },
        other => panic!("unexpected {:?}", other),
    }
}

#[test]
fn parser_reports_unexpected_token() {
    match parse_string("x := ;") {
        Err(ParserError::UnexpectedToken { found, .. }) => assert_eq!(found, Token::Semicolon),
        other => panic!("unexpected {:?}", other),
    }
}

#[test]
fn parser_reports_unexpected_eof() {
    assert!(matches!(parse_string("while true do"), Err(ParserError::UnexpectedEOF)));
}

fn print_aexpr(a: &Aexpr<LitInterval>) -> String {
    match a {
        Aexpr::Lit(LitInterval(l, u)) if l == u && *l >= 0 => l.to_string(),
        Aexpr::Lit(LitInterval(l, u)) => format!("[{},{}]", l, u),
        Aexpr::Var(x) => x.clone(),
        Aexpr::PreOp(PrePostOp::Inc, x) => format!("++{}", x),
        Aexpr::PreOp(PrePostOp::Dec, x) => format!("--{}", x),
        Aexpr::PostOp(PrePostOp::Inc, x) => format!("{}++", x),
        Aexpr::PostOp(PrePostOp::Dec, x) => format!("{}--", x),
        Aexpr::BinOp(op, l, r) => {
            let additive = matches!(op, Operator::Add | Operator::Sub);
            let left = match **l {
                Aexpr::BinOp(Operator::Add, _, _) | Aexpr::BinOp(Operator::Sub, _, _) if !additive => {
                    format!("({})", print_aexpr(l))
                },
                _ => print_aexpr(l),
            };
            let right = match **r {
                Aexpr::BinOp(_, _, _) => format!("({})", print_aexpr(r)),
                _ => print_aexpr(r),
            };
            let sym = match op {
                Operator::Add => "+",
                Operator::Sub => "-",
                Operator::Mul => "*",
                Operator::Div => "/",
            };
            format!("{} {} {}", left, sym, right)
        },
    }
}

fn print_atom(b: &Bexpr<LitInterval>) -> String {
    match b {
        Bexpr::And(_, _) => format!("({})", print_bexpr(b)),
        _ => print_bexpr(b),
    }
}

fn print_bexpr(b: &Bexpr<LitInterval>) -> String {
    match b {
        Bexpr::True => "true".to_string(),
        Bexpr::False => "false".to_string(),
        Bexpr::Equal(a1, a2) => format!("{} == {}", print_aexpr(a1), print_aexpr(a2)),
        Bexpr::LessEq(a1, a2) => format!("{} <= {}", print_aexpr(a1), print_aexpr(a2)),
        Bexpr::Not(b1) => format!("not {}", print_atom(b1)),
        Bexpr::And(b1, b2) => format!("{} and {}", print_bexpr(b1), print_atom(b2)),
    }
}

fn print_single(s: &Statement<LitInterval>) -> String {
    match s {
        Statement::Compose(_, _) => format!("{{ {} }}", print_statement(s)),
        _ => print_statement(s),
    }
}

fn print_statement(s: &Statement<LitInterval>) -> String {
    match s {
        Statement::Assign(x, a) => format!("{} := {};", x, print_aexpr(a)),
        Statement::Skip => "skip;".to_string(),
        Statement::Compose(s1, s2) => format!("{} {}", print_statement(s1), print_single(s2)),
        Statement::IfThenElse(b, s1, s2) => {
            format!("if {} then {} else {}", print_bexpr(b), print_single(s1), print_single(s2))
        },
        Statement::While(b, s) => format!("while {} do {}", print_bexpr(b), print_single(s)),
    }
}

#[test]
fn printing_and_parsing_round_trip() {
    let programs = [
        "y:=25; x:=1; while (not (y==0)) do { x:=x*y; y:=y-1; }",
        "x:=0; while x<=1000 do x:=x+10;",
        "if x<=0 then y:=1; else y:=-1;",
        "x:=6; y:=10; while not (x==y) do if x<=y then x:=x+2; else y:=y+1;",
        "repeat x -= 3; until x < 1; for (i := 0; i < 10 or z >= 2; i += 1) { z *= i / 2; w := [-3,7]; }",
        "a := b++ - --c * (d + 1); if true and not false then skip; else { skip; skip; }",
    ];
    for text in programs {
        let ast = parse_string(text).expect("parses");
        let printed = print_statement(&ast);
        let again = parse_string(&printed).expect("the printed program parses");
        assert_eq!(format!("{:?}", ast), format!("{:?}", again), "{}", printed);
    }
}
