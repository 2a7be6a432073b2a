use psc::lexer::{tokenize, Token};

fn kinds(src: &str) -> Vec<Token> {
    tokenize(src).tokens
}

#[test]
fn lexes_program_frame_with_spans() {
    let l = tokenize("Algoritmo Suma\nFinAlgoritmo");
    assert_eq!(l.tokens, vec![Token::Proceso, Token::Ident("Suma".to_string()), Token::FinProceso]);
    assert_eq!(l.spans, vec![(0, 9), (10, 14), (15, 27)]);
    assert!(l.errors.is_empty());
}

#[test]
fn keywords_ignore_case() {
    assert_eq!(kinds("escribir ESCRIBIR EsCrIbIr"), vec![Token::Escribir, Token::Escribir, Token::Escribir]);
    assert_eq!(kinds("finsi FINSI"), vec![Token::FinSi, Token::FinSi]);
}

#[test]
fn longest_match_between_keywords_and_identifiers() {
    assert_eq!(
        kinds("Si Sino Sinos SiNo x"),
        vec![
            Token::Si,
            Token::Sino,
            Token::Ident("Sinos".to_string()),
            Token::Sino,
            Token::Ident("x".to_string()),
        ]
    );
}

#[test]
fn keyword_aliases_give_the_same_token() {
    assert_eq!(
        kinds("Proceso Algoritmo SubProceso SubAlgoritmo Funcion FinSubProceso Cadena Texto Segundos Segundo"),
        vec![
            Token::Proceso,
            Token::Proceso,
            Token::Funcion,
            Token::Funcion,
            Token::Funcion,
            Token::FinFuncion,
            Token::Texto,
            Token::Texto,
            Token::Segundo,
            Token::Segundo,
        ]
    );
}

#[test]
fn keywords_of_two_words() {
    assert_eq!(kinds("Con Paso 2"), vec![Token::Paso, Token::Int(2)]);
    assert_eq!(kinds("Borrar Pantalla"), vec![Token::BorrarPantalla]);
    assert_eq!(kinds("Sin Saltar"), vec![Token::SinSaltar]);
    assert_eq!(kinds("Por Referencia Por Valor"), vec![Token::PorReferencia, Token::PorValor]);
    assert_eq!(kinds("Con  Paso"), vec![Token::Ident("Con".to_string()), Token::Paso]);
}

#[test]
fn numerals_and_their_errors() {
    let l = tokenize("12 3.5 007 12.");
    assert_eq!(
        l.tokens,
        vec![Token::Int(12), Token::Float("3.5".to_string()), Token::Int(7), Token::Int(12)]
    );
    assert_eq!(l.spans, vec![(0, 2), (3, 6), (7, 10), (11, 13)]);
    assert_eq!(l.errors, vec![(13, 14)]);
}

#[test]
fn integer_too_large_is_an_error() {
    let l = tokenize("9223372036854775807 9223372036854775808");
    assert_eq!(l.tokens, vec![Token::Int(i64::MAX)]);
    assert_eq!(l.errors, vec![(20, 39)]);
}

#[test]
fn quoted_texts_keep_quotes_and_escapes() {
    assert_eq!(
        kinds(r#""hola" 'mundo' "a\"b" "x\ty""#),
        vec![
            Token::String("\"hola\"".to_string()),
            Token::String("'mundo'".to_string()),
            Token::String("\"a\\\"b\"".to_string()),
            Token::String("\"x\\ty\"".to_string()),
        ]
    );
}

#[test]
fn unterminated_and_badly_escaped_texts() {
    let l = tokenize("\"abc");
    assert!(l.tokens.is_empty());
    assert_eq!(l.errors, vec![(0, 4)]);
    let l = tokenize("\"a\\qb\"");
    assert_eq!(l.tokens, vec![Token::Ident("qb".to_string())]);
    assert_eq!(l.errors, vec![(0, 3), (5, 6)]);
}

#[test]
fn comments_and_blanks_are_skipped() {
    assert_eq!(
        kinds("x // comentario\n\t w\r\n"),
        vec![Token::Ident("x".to_string()), Token::Ident("w".to_string())]
    );
}

#[test]
fn operators_and_delimiters() {
    assert_eq!(
        kinds("<- := <= >= <> < > = + - * / ^ % MOD & | ~ Y O NO ( ) [ ] , ; :"),
        vec![
            Token::Assign,
            Token::Assign,
            Token::Le,
            Token::Ge,
            Token::Ne,
            Token::Lt,
            Token::Gt,
            Token::Eq,
            Token::Plus,
            Token::Minus,
            Token::Star,
            Token::Slash,
            Token::Caret,
            Token::Mod,
            Token::Mod,
            Token::And,
            Token::Or,
            Token::Not,
            Token::And,
            Token::Or,
            Token::Not,
            Token::LParen,
            Token::RParen,
            Token::LBracket,
            Token::RBracket,
            Token::Comma,
            Token::Semi,
            Token::Colon,
        ]
    );
}

#[test]
fn unknown_characters_are_error_spans() {
    let l = tokenize("a @ b");
    assert_eq!(l.tokens, vec![Token::Ident("a".to_string()), Token::Ident("b".to_string())]);
    assert_eq!(l.errors, vec![(2, 3)]);
    let l = tokenize("año");
    assert_eq!(l.tokens, vec![Token::Ident("a".to_string()), Token::Or]);
    assert_eq!(l.errors, vec![(1, 2)]);
}

#[test]
fn long_s_folds_to_s_in_keywords() {
    assert_eq!(kinds("\u{17f}i"), vec![Token::Si]);
}

#[test]
fn single_letters_y_and_o_are_operators() {
    assert_eq!(kinds("y o no Nombre"), vec![Token::And, Token::Or, Token::Not, Token::Ident("Nombre".to_string())]);
}

#[test]
fn spans_are_ordered_inside_the_text() {
    let src = "Algoritmo P\n x <- \"texto\" + 3.25 @ // fin\n $ FinAlgoritmo";
    let n = src.chars().count();
    let l = tokenize(src);
    assert_eq!(l.tokens.len(), l.spans.len());
    for w in l.spans.windows(2) {
        assert!(w[0].1 <= w[1].0);
    }
    for &(a, b) in l.spans.iter().chain(l.errors.iter()) {
        assert!(a < b && b <= n);
    }
    assert_eq!(l.errors.len(), 2);
}
