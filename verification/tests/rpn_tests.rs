use parser::interpreter::Interpreter;
use parser::lexer::lex;
use parser::parser::{parse, Ast, BinOp, BinOpKind, UniOp};
use parser::reverse_polish::RpnCompiler;
use parser::utils::Loc;

#[test]
fn test_reverse_polish() {
    // 1 + 2 * 3 - -10
    let ast = Ast::binop(
        BinOp::sub(Loc(10, 11)),
        Ast::binop(
            BinOp::add(Loc(2, 3)),
            Ast::num(1, Loc(0, 1)),
            Ast::binop(
                BinOp::new(BinOpKind::Mult, Loc(6, 7)),
                Ast::num(2, Loc(4, 5)),
                Ast::num(3, Loc(8, 9)),
                Loc(4, 9),
            ),
            Loc(0, 9),
        ),
        Ast::uniop(UniOp::minus(Loc(12, 13)), Ast::num(10, Loc(13, 15)), Loc(12, 15)),
        Loc(0, 15),
    );
    let mut compiler = RpnCompiler::new();

    let reverse_polish = compiler.compile(&ast);

    assert_eq!(reverse_polish, "1 2 3 * + -10 -")
}

/// A plain stack-based postfix evaluator, as any calculator would write it.
fn eval_rpn(text: &str) -> Option<i64> {
    let mut stack: Vec<i64> = Vec::new();
    for word in text.split(' ') {
        match word {
            "+" | "-" | "*" | "/" => {
                let b = stack.pop()?;
                let a = stack.pop()?;
                let v = match word {
                    "+" => a.wrapping_add(b),
                    "-" => a.wrapping_sub(b),
                    "*" => a.wrapping_mul(b),
                    _ => {
                        if b == 0 {
                            return None;
                        }
                        a.wrapping_div(b)
                    }
                };
                stack.push(v);
            }
            lit => stack.push(lit.parse::<i64>().ok()?),
        }
    }
    if stack.len() == 1 {
        stack.pop()
    } else {
        None
    }
}

fn compile_line(input: &str) -> String {
    let ast = parse(lex(input).unwrap()).unwrap();
    let mut compiler = RpnCompiler::new();
    compiler.compile(&ast)
}

fn eval_line(input: &str) -> i64 {
    let ast = parse(lex(input).unwrap()).unwrap();
    let mut interp = Interpreter::new();
    interp.eval(&ast).unwrap()
}

#[test]
fn test_rpn_round_trip() {
    for input in [
        "1 + 2 * 3 - -10",
        "10 - 2 - 3",
        "(1 + 2) * 3",
        "7 / 2",
        "42",
        "-5 * (3 + +2)",
        "1 + 2 + 3 + 4 * 5 / 2",
    ] {
        let rpn = compile_line(input);
        assert_eq!(eval_rpn(&rpn), Some(eval_line(input)), "round trip of {input}: {rpn}");
    }
    assert_eq!(compile_line("1 + 2 * 3 - -10"), "1 2 3 * + -10 -");
    assert_eq!(eval_rpn("1 2 3 * + -10 -"), Some(17));
}

#[test]
fn test_rpn_single_number() {
    assert_eq!(compile_line("0"), "0");
    assert_eq!(compile_line("1234567890"), "1234567890");
}

#[test]
fn test_rpn_signed_literals() {
    assert_eq!(compile_line("-10"), "-10");
    assert_eq!(compile_line("+7"), "+7");
}
