use somescheme::error::CompileError;

#[test]
fn every_error_has_its_diagnostic() {
    assert_eq!(CompileError::Parse(17).message(), "parse error at character 17");
    assert_eq!(CompileError::Parse(0).message(), "parse error at character 0");
    assert_eq!(
        CompileError::UnboundIdentifier("y".to_string()).message(),
        "unbound identifier: y"
    );
    assert_eq!(
        CompileError::IllFormedBody.message(),
        "ill-formed body: a body must end in an expression"
    );
    assert_eq!(
        CompileError::UnknownBuiltin("unknown-builtin".to_string()).message(),
        "unknown builtin: unknown-builtin"
    );
    assert_eq!(CompileError::UnsupportedLiteral.message(), "unsupported literal");
    assert_eq!(
        CompileError::NamesExhausted.message(),
        "the supply of fresh names is exhausted"
    );
}

#[test]
fn errors_are_told_apart() {
    assert_ne!(
        CompileError::UnboundIdentifier("x".to_string()),
        CompileError::UnknownBuiltin("x".to_string())
    );
    assert_ne!(
        CompileError::UnboundIdentifier("x".to_string()),
        CompileError::UnboundIdentifier("y".to_string())
    );
    assert_ne!(CompileError::Parse(1), CompileError::Parse(2));
}
