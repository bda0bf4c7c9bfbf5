use sw_core::mach::lexer::{lex, Token};

#[test]
fn lexes_boolean_expression() {
    let tokens = lex("CPUBOARD=IP22 && (GFXBOARD=EXPRESS || GFXBOARD!=NEWPRESS)").unwrap();
    assert_eq!(
        tokens,
        vec![
            Token::Word("CPUBOARD".into()),
            Token::Eq,
            Token::Word("IP22".into()),
            Token::And,
            Token::LParen,
            Token::Word("GFXBOARD".into()),
            Token::Eq,
            Token::Word("EXPRESS".into()),
            Token::Or,
            Token::Word("GFXBOARD".into()),
            Token::Ne,
            Token::Word("NEWPRESS".into()),
            Token::RParen,
        ]
    );
}

#[test]
fn rejects_stray_characters() {
    assert!(lex("CPUBOARD=IP22 & GFXBOARD=X").is_err());
}
