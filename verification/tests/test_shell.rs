use risp::evaluator::Evaluator;
use risp::shell::{respond, Reply};

#[test]
fn test_shell_exit_and_blank_lines() {
    let mut evaluator = Evaluator::new(true);
    assert_eq!(respond(&mut evaluator, "exit"), Reply::Exit);
    assert_eq!(respond(&mut evaluator, ""), Reply::Nothing);
    assert_eq!(respond(&mut evaluator, "\n"), Reply::Nothing);
}

#[test]
fn test_shell_prints_values_and_errors() {
    let mut evaluator = Evaluator::new(true);
    assert_eq!(respond(&mut evaluator, "(let x 5)"), Reply::Nothing);
    assert_eq!(respond(&mut evaluator, "x"), Reply::Print("5".to_string()));
    assert_eq!(respond(&mut evaluator, "(< x 6)"), Reply::Print("true".to_string()));
    assert_eq!(respond(&mut evaluator, "(str x)"), Reply::Print("\"5\"".to_string()));
    assert_eq!(
        respond(&mut evaluator, "(1 (\"a\" x) false)"),
        Reply::Print("(1 (\"a\" 5) false)".to_string())
    );
    assert_eq!(respond(&mut evaluator, "(lambda (a) (a))"), Reply::Print("".to_string()));
    assert_eq!(
        respond(&mut evaluator, "(/ x 0)"),
        Reply::Print("Division by zero".to_string())
    );
    assert_eq!(
        respond(&mut evaluator, "(x"),
        Reply::Print("0:1 Unmatched opening parenthesis".to_string())
    );
    assert_eq!(respond(&mut evaluator, " exit"), Reply::Print("Unbound symbol: exit".to_string()));
    assert_eq!(respond(&mut evaluator, "x"), Reply::Print("5".to_string()));
}
