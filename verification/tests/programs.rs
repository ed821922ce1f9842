use scheme_interpreter::eval::{eval_prog, Environment};
use scheme_interpreter::lexer::Lexer;
use scheme_interpreter::parser::Parser;

#[test]
fn parse_let_mult_with_neg() {
    let input = "(let ((x -2) (y 3)) (* x y))";
    let mut lex = Lexer::init_lex(input.to_owned());
    let par = Parser::init_parser(&mut lex);
    let mut x = match par {
        Ok(x) => x,
        Err(e) => {
            println!("{:?}", e);
            panic!("false");
        }
    };
    let prog = x.parse_program();
    match prog {
        Ok(x) => {
            let mut env = Environment::init_env();
            let x = eval_prog(x, &mut env).unwrap();
            for i in x {
                println!("{}", i.show_val());
            }
        }
        Err(e) => {
            println!("{:?}", e);
            assert!(false);
        }
    }
}

#[test]
fn parse_let_sub() {
    let input = "(let ((x 2 ) (y 3)) (- x y))";
    let mut lex = Lexer::init_lex(input.to_owned());
    let par = Parser::init_parser(&mut lex);
    let mut x = match par {
        Ok(x) => x,
        Err(e) => {
            println!("{:?}", e);
            panic!("false");
        }
    };
    let prog = x.parse_program();
    match prog {
        Ok(x) => {
            let mut env = Environment::init_env();
            let x = eval_prog(x, &mut env).unwrap();
            for i in x {
                println!("{}", i.show_val());
            }
        }
        Err(e) => {
            println!("{:?}", e);
            assert!(false);
        }
    }
}

#[test]
fn parse_let_add() {
    let input = "(let ((x 2 ) (y 3)) (+ x y))";
    let mut lex = Lexer::init_lex(input.to_owned());
    let par = Parser::init_parser(&mut lex);
    let mut x = match par {
        Ok(x) => x,
        Err(e) => {
            println!("{:?}", e);
            panic!("false");
        }
    };
    let prog = x.parse_program();
    match prog {
        Ok(x) => {
            let mut env = Environment::init_env();
            let x = eval_prog(x, &mut env).unwrap();
            for i in x {
                println!("{}", i.show_val());
            }
        }
        Err(e) => {
            println!("{:?}", e);
            assert!(false);
        }
    }
}

#[test]
fn parse_let_cond_lt() {
    let input = "(let ((x 2 ) (y 3)) (<  x y))";
    let mut lex = Lexer::init_lex(input.to_owned());
    let par = Parser::init_parser(&mut lex);
    let mut x = match par {
        Ok(x) => x,
        Err(e) => {
            println!("{:?}", e);
            panic!("false");
        }
    };
    let prog = x.parse_program();
    match prog {
        Ok(x) => {
            let mut env = Environment::init_env();
            let x = eval_prog(x, &mut env).unwrap();
            for i in x {
                println!("{}", i.show_val());
            }
        }
        Err(e) => {
            println!("{:?}", e);
            assert!(false);
        }
    }
}

#[test]
fn parse_let_cond_gt() {
    let input = "(let ((x 2 ) (y 3)) (>  x y))";
    let mut lex = Lexer::init_lex(input.to_owned());
    let par = Parser::init_parser(&mut lex);
    let mut x = match par {
        Ok(x) => x,
        Err(e) => {
            println!("{:?}", e);
            panic!("false");
        }
    };
    let prog = x.parse_program();
    match prog {
        Ok(x) => {
            let mut env = Environment::init_env();
            let x = eval_prog(x, &mut env).unwrap();
            for i in x {
                println!("{}", i.show_val())
            }
        }
        Err(e) => {
            println!("{:?}", e);
            assert!(false);
        }
    }
}

#[test]
fn parse_let_and_lambda() {
    let input ="(let ((x ((lambda (x) (+ x x)) 3))) (* x x))";
    let mut lex = Lexer::init_lex(input.to_owned());
    let par = Parser::init_parser(&mut lex);
    let mut x = match par {
        Ok(x) => x,
        Err(e) => {
            println!("{:?}", e);
            panic!("false");
        }
    };
    let prog = x.parse_program();
    match prog {
        Ok(x) => {
            let mut env = Environment::init_env();
            let x = eval_prog(x, &mut env).unwrap();
            for i in x {
                println!("{}", i.show_val())
            }
        }
        Err(e) => {
            println!("{:?}", e);
            assert!(false);
        }
    }
}

#[test]
fn parse_more_calc() {
    let input = "(+ (* 3 5) (+ 1 2))"; // should return 18
    let mut lex = Lexer::init_lex(input.to_owned());
    let par = Parser::init_parser(&mut lex);
    let mut x = match par {
        Ok(x) => x,
        Err(e) => {
            println!("{:?}", e);
            panic!("false");
        }
    };
    let prog = x.parse_program();
    match prog {
        Ok(x) => {
            let mut env = Environment::init_env();
            let x = eval_prog(x, &mut env).unwrap();
            for i in x {
                println!("{}", i.show_val())
            }
        }
        Err(e) => {
            println!("{:?}", e);
            assert!(false);
        }
    }
}

#[test]
fn parse_define() {
    let input = "(define x 3) (* x 3)";
    let mut lex = Lexer::init_lex(input.to_owned());
    let par = Parser::init_parser(&mut lex);
    let mut x = match par {
        Ok(x) => x,
        Err(e) => {
            println!("{:?}", e);
            panic!("false");
        }
    };
    let prog = x.parse_program();
    match prog {
        Ok(x) => {
            let mut env = Environment::init_env();
            let x = eval_prog(x, &mut env).unwrap();
            for i in x {
                println!("{}", i.show_val());
            }
        }
        Err(e) => {
            println!("{:?}", e);
            assert!(false);
        }
    }
}

#[test]
fn parse_define_proc() {
    let input = "(define (p x y) (+ x y ))";
    let mut lex = Lexer::init_lex(input.to_owned());
    let par = Parser::init_parser(&mut lex);
    let mut x = match par {
        Ok(x) => x,
        Err(e) => {
            println!("{:?}", e);
            panic!("false");
        }
    };
    let prog = x.parse_program();
    match prog {
        Ok(x) => {
            let mut env = Environment::init_env();
            let x = eval_prog(x, &mut env).unwrap();
            for i in x {
                println!("{}", i.show_val());
            }
        }
        Err(e) => {
            println!("{:?}", e);
            assert!(false);
        }
    }
}

#[test]
fn parse_apply_proc() {
    let input = "(define (p x y z) (+ x y z)) (p 10 2 3)";
    let mut lex = Lexer::init_lex(input.to_owned());
    let par = Parser::init_parser(&mut lex);
    let mut x = match par {
        Ok(x) => x,
        Err(e) => {
            println!("{:?}", e);
            panic!("false");
        }
    };
    let prog = x.parse_program();
    match prog {
        Ok(x) => {
            let mut env = Environment::init_env();
            let x = eval_prog(x, &mut env).unwrap();
            for i in x {
                println!("{}", i.show_val());
            }
        }
        Err(e) => {
            println!("{:?}", e);
            assert!(false);
        }
    }
}

#[test]
fn parse_apply_proc2() {
    let input = "(define (circumference radius) (* 3 radius radius)) (circumference 5)";
    let mut lex = Lexer::init_lex(input.to_owned());
    let par = Parser::init_parser(&mut lex);
    let mut x = match par {
        Ok(x) => x,
        Err(e) => {
            println!("{:?}", e);
            panic!("false");
        }
    };
    let prog = x.parse_program();
    match prog {
        Ok(x) => {
            let mut env = Environment::init_env();
            let x = eval_prog(x, &mut env).unwrap();
            for i in x {
                println!("{}", i.show_val());
            }
        }
        Err(e) => {
            println!("{:?}", e);
            assert!(false);
        }
    }
}

#[test]
fn parse_lambda_eval() {
    let input = "((lambda (x) (* x x)) 3)";
    let mut lex = Lexer::init_lex(input.to_owned());
    let par = Parser::init_parser(&mut lex);
    let mut x = match par {
        Ok(x) => x,
        Err(e) => {
            println!("{:?}", e);
            panic!("false");
        }
    };
    let prog = x.parse_program();
    match prog {
        Ok(x) => {
            let mut env = Environment::init_env();
            let x = eval_prog(x, &mut env).unwrap();
            for i in x {
                println!("{}", i.show_val());
            }
        }
        Err(e) => {
            println!("{:?}", e);
            assert!(false);
        }
    }
}

#[test]
fn parse_lambda_eval2() {
    let input = "((lambda (x y) (* x y)) 3 4)";
    let mut lex = Lexer::init_lex(input.to_owned());
    let par = Parser::init_parser(&mut lex);
    let mut x = match par {
        Ok(x) => x,
        Err(e) => {
            println!("{:?}", e);
            panic!("false");
        }
    };
    let prog = x.parse_program();
    match prog {
        Ok(x) => {
            let mut env = Environment::init_env();
            let x = eval_prog(x, &mut env).unwrap();
            for i in x {
                println!("{}", i.show_val());
            }
        }
        Err(e) => {
            println!("{:?}", e);
            assert!(false);
        }
    }
}

#[test]
fn parse_quote() {
    let input = "(\'(* x x))";
    let mut lex = Lexer::init_lex(input.to_owned());
    let par = Parser::init_parser(&mut lex);
    let mut x = match par {
        Ok(x) => x,
        Err(e) => {
            println!("{:?}", e);
            panic!("false");
        }
    };
    let prog = x.parse_program();
    match prog {
        Ok(x) => {
            let mut env = Environment::init_env();
            let x = eval_prog(x, &mut env).unwrap();
            for i in x {
                println!("{}", i.show_val());
            }
        }
        Err(e) => {
            println!("{:?}", e);
            assert!(false);
        }
    }
}
