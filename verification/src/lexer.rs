//! Lexical analysis of PSeInt source text: the text is cut into tokens by
//! longest match, keywords win over identifiers of the same length, blanks
//! and `//` comments are dropped, and what no token matches is reported as
//! an error span. Positions are character offsets.
use vstd::prelude::*;
use vstd::std_specs::iter::IteratorSpec;
use vstd::string::StrSliceExecFns;
use crate::text::{ascii_lower, push_char};

verus! {

broadcast use vstd::std_specs::vec::group_vec_axioms;

/// A token of the language. Keywords are matched without regard to case;
/// aliases (`Algoritmo` for `Proceso`, `SubProceso` for `Funcion`, ...)
/// give the same token.
#[derive(Clone, Debug, PartialEq, Eq, Hash)]
pub enum Token {
    Proceso,
    FinProceso,
    Si,
    Entonces,
    Sino,
    FinSi,
    Segun,
    Hacer,
    FinSegun,
    Para,
    Hasta,
    Paso,
    FinPara,
    Mientras,
    FinMientras,
    Repetir,
    Que,
    PorReferencia,
    PorValor,
    Funcion,
    FinFuncion,
    Escribir,
    Leer,
    Definir,
    Como,
    Dimension,
    BorrarPantalla,
    SinSaltar,
    Esperar,
    Segundo,
    Milisegundo,
    Tecla,
    Entero,
    Real,
    Caracter,
    Logico,
    Texto,
    Verdadero,
    Falso,
    Plus,
    Minus,
    Star,
    Slash,
    Caret,
    Mod,
    Eq,
    Assign,
    Lt,
    Gt,
    Le,
    Ge,
    Ne,
    And,
    Or,
    Not,
    LParen,
    RParen,
    LBracket,
    RBracket,
    Comma,
    Semi,
    Colon,
    /// A quoted text, quotes and escapes included as written.
    String(String),
    Int(i64),
    /// A decimal numeral with a fractional part, as written.
    Float(String),
    Ident(String),
    Comment,
}

/// The mathematical model of a token.
pub enum SpecToken {
    Proceso,
    FinProceso,
    Si,
    Entonces,
    Sino,
    FinSi,
    Segun,
    Hacer,
    FinSegun,
    Para,
    Hasta,
    Paso,
    FinPara,
    Mientras,
    FinMientras,
    Repetir,
    Que,
    PorReferencia,
    PorValor,
    Funcion,
    FinFuncion,
    Escribir,
    Leer,
    Definir,
    Como,
    Dimension,
    BorrarPantalla,
    SinSaltar,
    Esperar,
    Segundo,
    Milisegundo,
    Tecla,
    Entero,
    Real,
    Caracter,
    Logico,
    Texto,
    Verdadero,
    Falso,
    Plus,
    Minus,
    Star,
    Slash,
    Caret,
    Mod,
    Eq,
    Assign,
    Lt,
    Gt,
    Le,
    Ge,
    Ne,
    And,
    Or,
    Not,
    LParen,
    RParen,
    LBracket,
    RBracket,
    Comma,
    Semi,
    Colon,
    String(Seq<char>),
    Int(i64),
    Float(Seq<char>),
    Ident(Seq<char>),
    Comment,
}

impl View for Token {
    type V = SpecToken;

    open spec fn view(&self) -> SpecToken {
        match *self {
            Token::Proceso => SpecToken::Proceso,
            Token::FinProceso => SpecToken::FinProceso,
            Token::Si => SpecToken::Si,
            Token::Entonces => SpecToken::Entonces,
            Token::Sino => SpecToken::Sino,
            Token::FinSi => SpecToken::FinSi,
            Token::Segun => SpecToken::Segun,
            Token::Hacer => SpecToken::Hacer,
            Token::FinSegun => SpecToken::FinSegun,
            Token::Para => SpecToken::Para,
            Token::Hasta => SpecToken::Hasta,
            Token::Paso => SpecToken::Paso,
            Token::FinPara => SpecToken::FinPara,
            Token::Mientras => SpecToken::Mientras,
            Token::FinMientras => SpecToken::FinMientras,
            Token::Repetir => SpecToken::Repetir,
            Token::Que => SpecToken::Que,
            Token::PorReferencia => SpecToken::PorReferencia,
            Token::PorValor => SpecToken::PorValor,
            Token::Funcion => SpecToken::Funcion,
            Token::FinFuncion => SpecToken::FinFuncion,
            Token::Escribir => SpecToken::Escribir,
            Token::Leer => SpecToken::Leer,
            Token::Definir => SpecToken::Definir,
            Token::Como => SpecToken::Como,
            Token::Dimension => SpecToken::Dimension,
            Token::BorrarPantalla => SpecToken::BorrarPantalla,
            Token::SinSaltar => SpecToken::SinSaltar,
            Token::Esperar => SpecToken::Esperar,
            Token::Segundo => SpecToken::Segundo,
            Token::Milisegundo => SpecToken::Milisegundo,
            Token::Tecla => SpecToken::Tecla,
            Token::Entero => SpecToken::Entero,
            Token::Real => SpecToken::Real,
            Token::Caracter => SpecToken::Caracter,
            Token::Logico => SpecToken::Logico,
            Token::Texto => SpecToken::Texto,
            Token::Verdadero => SpecToken::Verdadero,
            Token::Falso => SpecToken::Falso,
            Token::Plus => SpecToken::Plus,
            Token::Minus => SpecToken::Minus,
            Token::Star => SpecToken::Star,
            Token::Slash => SpecToken::Slash,
            Token::Caret => SpecToken::Caret,
            Token::Mod => SpecToken::Mod,
            Token::Eq => SpecToken::Eq,
            Token::Assign => SpecToken::Assign,
            Token::Lt => SpecToken::Lt,
            Token::Gt => SpecToken::Gt,
            Token::Le => SpecToken::Le,
            Token::Ge => SpecToken::Ge,
            Token::Ne => SpecToken::Ne,
            Token::And => SpecToken::And,
            Token::Or => SpecToken::Or,
            Token::Not => SpecToken::Not,
            Token::LParen => SpecToken::LParen,
            Token::RParen => SpecToken::RParen,
            Token::LBracket => SpecToken::LBracket,
            Token::RBracket => SpecToken::RBracket,
            Token::Comma => SpecToken::Comma,
            Token::Semi => SpecToken::Semi,
            Token::Colon => SpecToken::Colon,
            Token::String(s) => SpecToken::String(s@),
            Token::Int(n) => SpecToken::Int(n),
            Token::Float(s) => SpecToken::Float(s@),
            Token::Ident(s) => SpecToken::Ident(s@),
            Token::Comment => SpecToken::Comment,
        }
    }
}

/// Number of fixed spellings (keywords and symbols).
pub const LITERAL_COUNT: usize = 77;

/// The fixed spellings: the text, the token it stands for, and whether it
/// is matched without regard to case.
pub open spec fn literal(k: usize) -> (Seq<char>, SpecToken, bool) {
    match k {
        0 => ("Proceso"@, SpecToken::Proceso, true),
        1 => ("Algoritmo"@, SpecToken::Proceso, true),
        2 => ("FinProceso"@, SpecToken::FinProceso, true),
        3 => ("FinAlgoritmo"@, SpecToken::FinProceso, true),
        4 => ("Si"@, SpecToken::Si, true),
        5 => ("Entonces"@, SpecToken::Entonces, true),
        6 => ("Sino"@, SpecToken::Sino, true),
        7 => ("FinSi"@, SpecToken::FinSi, true),
        8 => ("Segun"@, SpecToken::Segun, true),
        9 => ("Hacer"@, SpecToken::Hacer, true),
        10 => ("FinSegun"@, SpecToken::FinSegun, true),
        11 => ("Para"@, SpecToken::Para, true),
        12 => ("Hasta"@, SpecToken::Hasta, true),
        13 => ("Con Paso"@, SpecToken::Paso, true),
        14 => ("Paso"@, SpecToken::Paso, true),
        15 => ("FinPara"@, SpecToken::FinPara, true),
        16 => ("Mientras"@, SpecToken::Mientras, true),
        17 => ("FinMientras"@, SpecToken::FinMientras, true),
        18 => ("Repetir"@, SpecToken::Repetir, true),
        19 => ("Que"@, SpecToken::Que, true),
        20 => ("Por Referencia"@, SpecToken::PorReferencia, true),
        21 => ("Por Valor"@, SpecToken::PorValor, true),
        22 => ("Funcion"@, SpecToken::Funcion, true),
        23 => ("SubProceso"@, SpecToken::Funcion, true),
        24 => ("SubAlgoritmo"@, SpecToken::Funcion, true),
        25 => ("FinFuncion"@, SpecToken::FinFuncion, true),
        26 => ("FinSubProceso"@, SpecToken::FinFuncion, true),
        27 => ("FinSubAlgoritmo"@, SpecToken::FinFuncion, true),
        28 => ("Escribir"@, SpecToken::Escribir, true),
        29 => ("Leer"@, SpecToken::Leer, true),
        30 => ("Definir"@, SpecToken::Definir, true),
        31 => ("Como"@, SpecToken::Como, true),
        32 => ("Dimension"@, SpecToken::Dimension, true),
        33 => ("Borrar Pantalla"@, SpecToken::BorrarPantalla, true),
        34 => ("Sin Saltar"@, SpecToken::SinSaltar, true),
        35 => ("Esperar"@, SpecToken::Esperar, true),
        36 => ("Segundos"@, SpecToken::Segundo, true),
        37 => ("Segundo"@, SpecToken::Segundo, true),
        38 => ("Milisegundos"@, SpecToken::Milisegundo, true),
        39 => ("Milisegundo"@, SpecToken::Milisegundo, true),
        40 => ("Tecla"@, SpecToken::Tecla, true),
        41 => ("Entero"@, SpecToken::Entero, true),
        42 => ("Real"@, SpecToken::Real, true),
        43 => ("Caracter"@, SpecToken::Caracter, true),
        44 => ("Logico"@, SpecToken::Logico, true),
        45 => ("Texto"@, SpecToken::Texto, true),
        46 => ("Cadena"@, SpecToken::Texto, true),
        47 => ("Verdadero"@, SpecToken::Verdadero, true),
        48 => ("Falso"@, SpecToken::Falso, true),
        49 => ("+"@, SpecToken::Plus, false),
        50 => ("-"@, SpecToken::Minus, false),
        51 => ("*"@, SpecToken::Star, false),
        52 => ("/"@, SpecToken::Slash, false),
        53 => ("^"@, SpecToken::Caret, false),
        54 => ("MOD"@, SpecToken::Mod, true),
        55 => ("%"@, SpecToken::Mod, false),
        56 => ("="@, SpecToken::Eq, false),
        57 => ("<-"@, SpecToken::Assign, false),
        58 => (":="@, SpecToken::Assign, false),
        59 => ("<"@, SpecToken::Lt, false),
        60 => (">"@, SpecToken::Gt, false),
        61 => ("<="@, SpecToken::Le, false),
        62 => (">="@, SpecToken::Ge, false),
        63 => ("<>"@, SpecToken::Ne, false),
        64 => ("&"@, SpecToken::And, false),
        65 => ("Y"@, SpecToken::And, true),
        66 => ("|"@, SpecToken::Or, false),
        67 => ("O"@, SpecToken::Or, true),
        68 => ("~"@, SpecToken::Not, false),
        69 => ("NO"@, SpecToken::Not, true),
        70 => ("("@, SpecToken::LParen, false),
        71 => (")"@, SpecToken::RParen, false),
        72 => ("["@, SpecToken::LBracket, false),
        73 => ("]"@, SpecToken::RBracket, false),
        74 => (","@, SpecToken::Comma, false),
        75 => (";"@, SpecToken::Semi, false),
        _ => (":"@, SpecToken::Colon, false),
    }
}

fn literal_entry(k: usize) -> (r: (&'static str, Token, bool))
    requires
        k < LITERAL_COUNT,
    ensures
        r.0@ == literal(k).0,
        r.1@ == literal(k).1,
        r.2 == literal(k).2,
{
    match k {
        0 => ("Proceso", Token::Proceso, true),
        1 => ("Algoritmo", Token::Proceso, true),
        2 => ("FinProceso", Token::FinProceso, true),
        3 => ("FinAlgoritmo", Token::FinProceso, true),
        4 => ("Si", Token::Si, true),
        5 => ("Entonces", Token::Entonces, true),
        6 => ("Sino", Token::Sino, true),
        7 => ("FinSi", Token::FinSi, true),
        8 => ("Segun", Token::Segun, true),
        9 => ("Hacer", Token::Hacer, true),
        10 => ("FinSegun", Token::FinSegun, true),
        11 => ("Para", Token::Para, true),
        12 => ("Hasta", Token::Hasta, true),
        13 => ("Con Paso", Token::Paso, true),
        14 => ("Paso", Token::Paso, true),
        15 => ("FinPara", Token::FinPara, true),
        16 => ("Mientras", Token::Mientras, true),
        17 => ("FinMientras", Token::FinMientras, true),
        18 => ("Repetir", Token::Repetir, true),
        19 => ("Que", Token::Que, true),
        20 => ("Por Referencia", Token::PorReferencia, true),
        21 => ("Por Valor", Token::PorValor, true),
        22 => ("Funcion", Token::Funcion, true),
        23 => ("SubProceso", Token::Funcion, true),
        24 => ("SubAlgoritmo", Token::Funcion, true),
        25 => ("FinFuncion", Token::FinFuncion, true),
        26 => ("FinSubProceso", Token::FinFuncion, true),
        27 => ("FinSubAlgoritmo", Token::FinFuncion, true),
        28 => ("Escribir", Token::Escribir, true),
        29 => ("Leer", Token::Leer, true),
        30 => ("Definir", Token::Definir, true),
        31 => ("Como", Token::Como, true),
        32 => ("Dimension", Token::Dimension, true),
        33 => ("Borrar Pantalla", Token::BorrarPantalla, true),
        34 => ("Sin Saltar", Token::SinSaltar, true),
        35 => ("Esperar", Token::Esperar, true),
        36 => ("Segundos", Token::Segundo, true),
        37 => ("Segundo", Token::Segundo, true),
        38 => ("Milisegundos", Token::Milisegundo, true),
        39 => ("Milisegundo", Token::Milisegundo, true),
        40 => ("Tecla", Token::Tecla, true),
        41 => ("Entero", Token::Entero, true),
        42 => ("Real", Token::Real, true),
        43 => ("Caracter", Token::Caracter, true),
        44 => ("Logico", Token::Logico, true),
        45 => ("Texto", Token::Texto, true),
        46 => ("Cadena", Token::Texto, true),
        47 => ("Verdadero", Token::Verdadero, true),
        48 => ("Falso", Token::Falso, true),
        49 => ("+", Token::Plus, false),
        50 => ("-", Token::Minus, false),
        51 => ("*", Token::Star, false),
        52 => ("/", Token::Slash, false),
        53 => ("^", Token::Caret, false),
        54 => ("MOD", Token::Mod, true),
        55 => ("%", Token::Mod, false),
        56 => ("=", Token::Eq, false),
        57 => ("<-", Token::Assign, false),
        58 => (":=", Token::Assign, false),
        59 => ("<", Token::Lt, false),
        60 => (">", Token::Gt, false),
        61 => ("<=", Token::Le, false),
        62 => (">=", Token::Ge, false),
        63 => ("<>", Token::Ne, false),
        64 => ("&", Token::And, false),
        65 => ("Y", Token::And, true),
        66 => ("|", Token::Or, false),
        67 => ("O", Token::Or, true),
        68 => ("~", Token::Not, false),
        69 => ("NO", Token::Not, true),
        70 => ("(", Token::LParen, false),
        71 => (")", Token::RParen, false),
        72 => ("[", Token::LBracket, false),
        73 => ("]", Token::RBracket, false),
        74 => (",", Token::Comma, false),
        75 => (";", Token::Semi, false),
        _ => (":", Token::Colon, false),
    }
}

// ---------------------------------------------------------------------
// Character classes and runs
// ---------------------------------------------------------------------
pub open spec fn is_blank(c: char) -> bool {
    c == ' ' || c == '\t' || c == '\n' || c == '\x0C' || c == '\r'
}

pub open spec fn is_digit(c: char) -> bool {
    '0' <= c && c <= '9'
}

pub open spec fn is_ident_start(c: char) -> bool {
    ('a' <= c && c <= 'z') || ('A' <= c && c <= 'Z') || c == '_'
}

pub open spec fn is_ident_char(c: char) -> bool {
    is_ident_start(c) || is_digit(c)
}

/// The classes of characters that a run is made of.
#[derive(Clone, Copy, PartialEq, Eq, Structural)]
pub enum Class {
    Blank,
    Digit,
    IdentChar,
    NotNewline,
}

pub open spec fn in_class(c: char, k: Class) -> bool {
    match k {
        Class::Blank => is_blank(c),
        Class::Digit => is_digit(c),
        Class::IdentChar => is_ident_char(c),
        Class::NotNewline => c != '\n',
    }
}

/// The number of characters of class `k` that follow one another from `p`.
pub open spec fn run(s: Seq<char>, p: int, k: Class) -> int
    decreases s.len() - p,
{
    if 0 <= p < s.len() && in_class(s[p], k) {
        1 + run(s, p + 1, k)
    } else {
        0
    }
}

proof fn lemma_run_bounds(s: Seq<char>, p: int, k: Class)
    requires
        0 <= p <= s.len(),
    ensures
        0 <= run(s, p, k) <= s.len() - p,
        forall|i: int| p <= i < p + run(s, p, k) ==> #[trigger] in_class(s[i], k),
    decreases s.len() - p,
{
    if p < s.len() && in_class(s[p], k) {
        lemma_run_bounds(s, p + 1, k);
    }
}

fn char_in_class(c: char, k: Class) -> (r: bool)
    ensures
        r == in_class(c, k),
{
    match k {
        Class::Blank => c == ' ' || c == '\t' || c == '\n' || c == '\x0C' || c == '\r',
        Class::Digit => '0' <= c && c <= '9',
        Class::IdentChar => ('a' <= c && c <= 'z') || ('A' <= c && c <= 'Z') || c == '_' || (
        '0' <= c && c <= '9'),
        Class::NotNewline => c != '\n',
    }
}

/// The end of the run of class `k` that starts at `p`.
fn run_end(s: &Vec<char>, p: usize, k: Class) -> (q: usize)
    requires
        p <= s.len(),
    ensures
        q == p + run(s@, p as int, k),
        q <= s.len(),
{
    let mut q = p;
    while q < s.len() && char_in_class(s[q], k)
        invariant
            p <= q <= s.len(),
            run(s@, p as int, k) == (q - p) + run(s@, q as int, k),
        decreases s.len() - q,
    {
        q += 1;
    }
    q
}

// ---------------------------------------------------------------------
// Fixed spellings
// ---------------------------------------------------------------------
/// Case folding used for keywords: ASCII letters, and the two non-ASCII
/// characters whose simple case folding is an ASCII letter (LONG S and
/// KELVIN SIGN).
pub open spec fn fold_case(c: char) -> char {
    if c == '\u{17f}' {
        's'
    } else if c == '\u{212a}' {
        'k'
    } else {
        ascii_lower(c)
    }
}

pub open spec fn same_char(c: char, w: char, ci: bool) -> bool {
    if ci {
        fold_case(c) == fold_case(w)
    } else {
        c == w
    }
}

/// The spelling `w` stands in `s` at `p`.
pub open spec fn spelled_at(s: Seq<char>, p: int, w: Seq<char>, ci: bool) -> bool {
    &&& 0 <= p
    &&& p + w.len() <= s.len()
    &&& forall|i: int| 0 <= i < w.len() ==> #[trigger] same_char(s[p + i], w[i], ci)
}

/// Among the first `k` fixed spellings, the longest that stands at `p`:
/// its length and its index (length 0 when none does).
pub open spec fn best_literal(s: Seq<char>, p: int, k: usize) -> (int, usize)
    decreases k,
{
    if k == 0 {
        (0, 0)
    } else {
        let prev = best_literal(s, p, (k - 1) as usize);
        let e = literal((k - 1) as usize);
        if spelled_at(s, p, e.0, e.2) && e.0.len() > prev.0 {
            (e.0.len() as int, (k - 1) as usize)
        } else {
            prev
        }
    }
}

fn fold_case_exec(c: char) -> (r: char)
    ensures
        r == fold_case(c),
{
    if c == '\u{17f}' {
        's'
    } else if c == '\u{212a}' {
        'k'
    } else if 'A' <= c && c <= 'Z' {
        let v: u32 = (c as u32) + 32;
        let b: u8 = v as u8;
        b as char
    } else {
        c
    }
}

fn spelled_at_exec(s: &Vec<char>, p: usize, w: &str, ci: bool) -> (r: bool)
    requires
        p <= s.len(),
    ensures
        r == spelled_at(s@, p as int, w@, ci),
{
    let n = w.unicode_len();
    if n > s.len() - p {
        return false;
    }
    let mut i: usize = 0;
    while i < n
        invariant
            i <= n,
            n == w@.len(),
            p + n <= s.len(),
            forall|j: int| 0 <= j < i ==> #[trigger] same_char(s@[p + j], w@[j], ci),
        decreases n - i,
    {
        let c = s[p + i];
        let d = w.get_char(i);
        let same = if ci {
            fold_case_exec(c) == fold_case_exec(d)
        } else {
            c == d
        };
        if !same {
            assert(!same_char(s@[p + i as int], w@[i as int], ci));
            return false;
        }
        i += 1;
    }
    true
}

fn best_literal_exec(s: &Vec<char>, p: usize) -> (r: (usize, usize))
    requires
        p <= s.len(),
    ensures
        r.0 as int == best_literal(s@, p as int, LITERAL_COUNT).0,
        r.1 == best_literal(s@, p as int, LITERAL_COUNT).1,
        r.0 <= s.len() - p,
        r.0 > 0 ==> r.1 < LITERAL_COUNT,
{
    let mut best: usize = 0;
    let mut idx: usize = 0;
    let mut k: usize = 0;
    while k < LITERAL_COUNT
        invariant
            k <= LITERAL_COUNT,
            p <= s.len(),
            best as int == best_literal(s@, p as int, k).0,
            idx == best_literal(s@, p as int, k).1,
            best <= s.len() - p,
            best > 0 ==> idx < k,
        decreases LITERAL_COUNT - k,
    {
        let (w, _tok, ci) = literal_entry(k);
        if spelled_at_exec(s, p, w, ci) && w.unicode_len() > best {
            best = w.unicode_len();
            idx = k;
        }
        k += 1;
    }
    (best, idx)
}

// ---------------------------------------------------------------------
// Numerals and quoted texts
// ---------------------------------------------------------------------
pub open spec fn digit_value(c: char) -> int {
    (c as int) - ('0' as int)
}

/// The value of a decimal numeral.
pub open spec fn numeral_value(t: Seq<char>) -> int
    decreases t.len(),
{
    if t.len() == 0 {
        0
    } else {
        10 * numeral_value(t.drop_last()) + digit_value(t.last())
    }
}

/// An escape that a quoted text may hold after a backslash.
pub open spec fn escape_ok(c: char, quote: char) -> bool {
    c == 't' || c == 'u' || c == 'n' || c == quote
}

/// Scanning the body of a quoted text from `j`: `Ok(q)` where the closing
/// quote stands, or `Err(e)` where the scan stopped (the end of the text,
/// or just after a backslash that starts no valid escape).
pub open spec fn quote_end(s: Seq<char>, j: int, quote: char) -> Result<int, int>
    decreases s.len() - j,
{
    if j < 0 || j >= s.len() {
        Err(s.len() as int)
    } else if s[j] == quote {
        Ok(j)
    } else if s[j] == '\\' {
        if j + 1 < s.len() && escape_ok(s[j + 1], quote) {
            quote_end(s, j + 2, quote)
        } else {
            Err(j + 1)
        }
    } else {
        quote_end(s, j + 1, quote)
    }
}

// ---------------------------------------------------------------------
// One step of the scan
// ---------------------------------------------------------------------
/// What stands at a position: text to skip, a token, or text that no token
/// matches; each with its length in characters.
pub enum Lexeme {
    Skip(int),
    Tok(SpecToken, int),
    Bad(int),
}

pub open spec fn lexeme_len(l: Lexeme) -> int {
    match l {
        Lexeme::Skip(n) => n,
        Lexeme::Tok(_, n) => n,
        Lexeme::Bad(n) => n,
    }
}

/// The longest match at `p` (which must be inside `s`).
pub open spec fn lexeme_at(s: Seq<char>, p: int) -> Lexeme {
    let c = s[p];
    if is_blank(c) {
        Lexeme::Skip(run(s, p, Class::Blank))
    } else if c == '/' && p + 1 < s.len() && s[p + 1] == '/' {
        Lexeme::Skip(2 + run(s, p + 2, Class::NotNewline))
    } else if c == '"' || c == '\'' {
        match quote_end(s, p + 1, c) {
            Ok(q) => Lexeme::Tok(SpecToken::String(s.subrange(p, q + 1)), q + 1 - p),
            Err(e) => Lexeme::Bad(e - p),
        }
    } else if is_digit(c) {
        let d = run(s, p, Class::Digit);
        if p + d + 1 < s.len() && s[p + d] == '.' && is_digit(s[p + d + 1]) {
            let f = d + 1 + run(s, p + d + 1, Class::Digit);
            Lexeme::Tok(SpecToken::Float(s.subrange(p, p + f)), f)
        } else if numeral_value(s.subrange(p, p + d)) <= i64::MAX {
            Lexeme::Tok(SpecToken::Int(numeral_value(s.subrange(p, p + d)) as i64), d)
        } else {
            Lexeme::Bad(d)
        }
    } else {
        let lit = best_literal(s, p, LITERAL_COUNT);
        let id = if is_ident_start(c) {
            run(s, p, Class::IdentChar)
        } else {
            0
        };
        if id > lit.0 {
            Lexeme::Tok(SpecToken::Ident(s.subrange(p, p + id)), id)
        } else if lit.0 > 0 {
            Lexeme::Tok(literal(lit.1).1, lit.0)
        } else {
            Lexeme::Bad(1)
        }
    }
}

/// The tokens (with their spans) and the error spans of `s` from `p` on.
pub open spec fn scan(s: Seq<char>, p: int) -> (Seq<(SpecToken, int, int)>, Seq<(int, int)>)
    decreases s.len() - p,
{
    if p < 0 || p >= s.len() {
        (Seq::empty(), Seq::empty())
    } else {
        let l = lexeme_at(s, p);
        let n = lexeme_len(l);
        if n <= 0 || n > s.len() - p {
            // never taken: see `law_lexeme_advances`
            (Seq::empty(), Seq::empty())
        } else {
            let rest = scan(s, p + n);
            match l {
                Lexeme::Skip(_) => rest,
                Lexeme::Tok(t, _) => (seq![(t, p, p + n)] + rest.0, rest.1),
                Lexeme::Bad(_) => (rest.0, seq![(p, p + n)] + rest.1),
            }
        }
    }
}


/// The characters of a text, in order.
pub fn chars_of(s: &str) -> (r: Vec<char>)
    ensures
        r@ == s@,
{
    broadcast use vstd::string::group_string_axioms;
    let mut it = s.chars();
    let mut r: Vec<char> = Vec::new();
    loop
        invariant
            r@ + it.remaining() == s@,
            it.obeys_prophetic_iter_laws(),
            it.decrease() is Some,
        ensures
            r@ == s@,
        decreases it.decrease()->0,
    {
        match it.next() {
            Some(c) => {
                r.push(c);
            },
            None => {
                assert(r@ + it.remaining() =~= r@);
                break;
            },
        }
    }
    r
}

/// The tokens of a text, each with its span, and the spans that no token
/// matches. Spans are `(start, end)` character offsets, end excluded.
pub struct Lexed {
    pub tokens: Vec<Token>,
    /// The span of each token, in the same order.
    pub spans: Vec<(usize, usize)>,
    pub errors: Vec<(usize, usize)>,
}

pub open spec fn toks(ts: Seq<Token>) -> Seq<SpecToken> {
    ts.map_values(|t: Token| t@)
}

/// The tokens of a scan, without their spans.
pub open spec fn kinds(v: Seq<(SpecToken, int, int)>) -> Seq<SpecToken> {
    v.map_values(|x: (SpecToken, int, int)| x.0)
}

/// The spans of the tokens of a scan.
pub open spec fn token_spans(v: Seq<(SpecToken, int, int)>) -> Seq<(int, int)> {
    v.map_values(|x: (SpecToken, int, int)| (x.1, x.2))
}

pub open spec fn spans_view(v: Seq<(usize, usize)>) -> Seq<(int, int)> {
    v.map_values(|x: (usize, usize)| (x.0 as int, x.1 as int))
}

/// Each step of the scan moves forward and stays inside the text.
pub proof fn law_lexeme_advances(s: Seq<char>, p: int)
    requires
        0 <= p < s.len(),
    ensures
        1 <= lexeme_len(lexeme_at(s, p)) <= s.len() - p,
{
    let c = s[p];
    lemma_run_bounds(s, p + 1, Class::Blank);
    lemma_run_bounds(s, p + 1, Class::Digit);
    lemma_run_bounds(s, p + 1, Class::IdentChar);
    lemma_run_bounds(s, p, Class::Blank);
    lemma_run_bounds(s, p, Class::Digit);
    lemma_run_bounds(s, p, Class::IdentChar);
    assert(in_class(c, Class::Blank) ==> run(s, p, Class::Blank) >= 1);
    assert(in_class(c, Class::Digit) ==> run(s, p, Class::Digit) >= 1);
    assert(in_class(c, Class::IdentChar) ==> run(s, p, Class::IdentChar) >= 1);
    if c == '/' && p + 1 < s.len() && s[p + 1] == '/' {
        lemma_run_bounds(s, p + 2, Class::NotNewline);
    }
    if c == '"' || c == '\'' {
        lemma_quote_end_bounds(s, p + 1, c);
    }
    if is_digit(c) {
        let d = run(s, p, Class::Digit);
        if p + d + 1 < s.len() {
            lemma_run_bounds(s, p + d + 1, Class::Digit);
        }
    }
    if !is_blank(c) && !(c == '/' && p + 1 < s.len() && s[p + 1] == '/') && !(c == '"' || c
        == '\'') && !is_digit(c) {
        lemma_best_literal_bounds(s, p, LITERAL_COUNT);
    }
}

/// Spans in increasing order, each non-empty and inside `lo .. hi`.
pub open spec fn ordered_spans(v: Seq<(int, int)>, lo: int, hi: int) -> bool {
    &&& forall|i: int| 0 <= i < v.len() ==> lo <= #[trigger] v[i].0 < v[i].1 <= hi
    &&& forall|i: int, j: int| 0 <= i < j < v.len() ==> #[trigger] v[i].1 <= #[trigger] v[j].0
}

/// The spans of the tokens, and those of the errors, lie inside the text,
/// in increasing order, without overlapping.
pub proof fn law_scan_spans(s: Seq<char>, p: int)
    requires
        0 <= p <= s.len(),
    ensures
        ordered_spans(token_spans(scan(s, p).0), p, s.len() as int),
        ordered_spans(scan(s, p).1, p, s.len() as int),
    decreases s.len() - p,
{
    if p < s.len() {
        law_lexeme_advances(s, p);
        let l = lexeme_at(s, p);
        let n = lexeme_len(l);
        law_scan_spans(s, p + n);
        let rest = scan(s, p + n);
        let rt = token_spans(rest.0);
        let re = rest.1;
        match l {
            Lexeme::Skip(_) => {},
            Lexeme::Tok(tk, _) => {
                let v = seq![(tk, p, p + n)] + rest.0;
                assert(scan(s, p).0 == v);
                let tv = token_spans(v);
                assert(tv =~= seq![(p, p + n)] + rt);
                assert forall|i: int, j: int| 0 <= i < j < tv.len() implies #[trigger] tv[i].1
                    <= #[trigger] tv[j].0 by {
                    if i > 0 {
                        assert(tv[i] == rt[i - 1]);
                    }
                    assert(tv[j] == rt[j - 1]);
                }
            },
            Lexeme::Bad(_) => {
                let v = seq![(p, p + n)] + re;
                assert(scan(s, p).1 == v);
                assert forall|i: int, j: int| 0 <= i < j < v.len() implies #[trigger] v[i].1
                    <= #[trigger] v[j].0 by {
                    if i > 0 {
                        assert(v[i] == re[i - 1]);
                    }
                    assert(v[j] == re[j - 1]);
                }
            },
        }
    }
}

proof fn lemma_quote_end_bounds(s: Seq<char>, j: int, quote: char)
    requires
        1 <= j <= s.len(),
    ensures
        match quote_end(s, j, quote) {
            Ok(q) => j <= q < s.len(),
            Err(e) => j <= e <= s.len(),
        },
    decreases s.len() - j,
{
    if j < s.len() && s[j] != quote {
        if s[j] == '\\' {
            if j + 1 < s.len() && escape_ok(s[j + 1], quote) {
                lemma_quote_end_bounds(s, j + 2, quote);
            }
        } else {
            lemma_quote_end_bounds(s, j + 1, quote);
        }
    }
}

proof fn lemma_best_literal_bounds(s: Seq<char>, p: int, k: usize)
    requires
        0 <= p <= s.len(),
    ensures
        0 <= best_literal(s, p, k).0 <= s.len() - p,
    decreases k,
{
    if k > 0 {
        lemma_best_literal_bounds(s, p, (k - 1) as usize);
    }
}


/// The spellings of each fixed token: a keyword or symbol of the
/// language and the word or sign that names it.
pub open spec fn names_token(w: Seq<char>, t: SpecToken) -> bool {
    match t {
        SpecToken::Proceso => w == "Proceso"@ || w == "Algoritmo"@,
        SpecToken::FinProceso => w == "FinProceso"@ || w == "FinAlgoritmo"@,
        SpecToken::Si => w == "Si"@,
        SpecToken::Entonces => w == "Entonces"@,
        SpecToken::Sino => w == "Sino"@,
        SpecToken::FinSi => w == "FinSi"@,
        SpecToken::Segun => w == "Segun"@,
        SpecToken::Hacer => w == "Hacer"@,
        SpecToken::FinSegun => w == "FinSegun"@,
        SpecToken::Para => w == "Para"@,
        SpecToken::Hasta => w == "Hasta"@,
        SpecToken::Paso => w == "Con Paso"@ || w == "Paso"@,
        SpecToken::FinPara => w == "FinPara"@,
        SpecToken::Mientras => w == "Mientras"@,
        SpecToken::FinMientras => w == "FinMientras"@,
        SpecToken::Repetir => w == "Repetir"@,
        SpecToken::Que => w == "Que"@,
        SpecToken::PorReferencia => w == "Por Referencia"@,
        SpecToken::PorValor => w == "Por Valor"@,
        SpecToken::Funcion => w == "Funcion"@ || w == "SubProceso"@ || w == "SubAlgoritmo"@,
        SpecToken::FinFuncion => w == "FinFuncion"@ || w == "FinSubProceso"@ || w == "FinSubAlgoritmo"@,
        SpecToken::Escribir => w == "Escribir"@,
        SpecToken::Leer => w == "Leer"@,
        SpecToken::Definir => w == "Definir"@,
        SpecToken::Como => w == "Como"@,
        SpecToken::Dimension => w == "Dimension"@,
        SpecToken::BorrarPantalla => w == "Borrar Pantalla"@,
        SpecToken::SinSaltar => w == "Sin Saltar"@,
        SpecToken::Esperar => w == "Esperar"@,
        SpecToken::Segundo => w == "Segundos"@ || w == "Segundo"@,
        SpecToken::Milisegundo => w == "Milisegundos"@ || w == "Milisegundo"@,
        SpecToken::Tecla => w == "Tecla"@,
        SpecToken::Entero => w == "Entero"@,
        SpecToken::Real => w == "Real"@,
        SpecToken::Caracter => w == "Caracter"@,
        SpecToken::Logico => w == "Logico"@,
        SpecToken::Texto => w == "Texto"@ || w == "Cadena"@,
        SpecToken::Verdadero => w == "Verdadero"@,
        SpecToken::Falso => w == "Falso"@,
        SpecToken::Plus => w == "+"@,
        SpecToken::Minus => w == "-"@,
        SpecToken::Star => w == "*"@,
        SpecToken::Slash => w == "/"@,
        SpecToken::Caret => w == "^"@,
        SpecToken::Mod => w == "MOD"@ || w == "%"@,
        SpecToken::Eq => w == "="@,
        SpecToken::Assign => w == "<-"@ || w == ":="@,
        SpecToken::Lt => w == "<"@,
        SpecToken::Gt => w == ">"@,
        SpecToken::Le => w == "<="@,
        SpecToken::Ge => w == ">="@,
        SpecToken::Ne => w == "<>"@,
        SpecToken::And => w == "&"@ || w == "Y"@,
        SpecToken::Or => w == "|"@ || w == "O"@,
        SpecToken::Not => w == "~"@ || w == "NO"@,
        SpecToken::LParen => w == "("@,
        SpecToken::RParen => w == ")"@,
        SpecToken::LBracket => w == "["@,
        SpecToken::RBracket => w == "]"@,
        SpecToken::Comma => w == ","@,
        SpecToken::Semi => w == ";"@,
        SpecToken::Colon => w == ":"@,
        _ => false,
    }
}

/// A token that the lexer takes from the table of fixed spellings (not a
/// literal value, an identifier or a comment).
pub open spec fn is_fixed_token(t: SpecToken) -> bool {
    !(t is String || t is Int || t is Float || t is Ident || t is Comment)
}

/// The table of fixed spellings holds each keyword and symbol under its
/// own token, and every spelling of every fixed token: the word
/// `Caracter` stands for the token Caracter, `Entero` for Entero, `<=`
/// for Le, and so on.
pub proof fn law_literal_table_spells_tokens()
    ensures
        forall|k: usize| k < LITERAL_COUNT ==> #[trigger] names_token(literal(k).0, literal(k).1),
        forall|k: usize| k < LITERAL_COUNT ==> is_fixed_token(#[trigger] literal(k).1),
        forall|w: Seq<char>, t: SpecToken| #[trigger] names_token(w, t) ==> exists|k: usize|
            k < LITERAL_COUNT && #[trigger] literal(k) == (w, t, literal(k).2),
{
    assert forall|w: Seq<char>, t: SpecToken| #[trigger] names_token(w, t) implies exists|k: usize|
        k < LITERAL_COUNT && #[trigger] literal(k) == (w, t, literal(k).2) by {
        if t == SpecToken::Proceso {
            if w == "Proceso"@ {
                assert(literal(0usize) == (w, t, literal(0usize).2));
            }
            if w == "Algoritmo"@ {
                assert(literal(1usize) == (w, t, literal(1usize).2));
            }
        }
        if t == SpecToken::FinProceso {
            if w == "FinProceso"@ {
                assert(literal(2usize) == (w, t, literal(2usize).2));
            }
            if w == "FinAlgoritmo"@ {
                assert(literal(3usize) == (w, t, literal(3usize).2));
            }
        }
        if t == SpecToken::Si {
            if w == "Si"@ {
                assert(literal(4usize) == (w, t, literal(4usize).2));
            }
        }
        if t == SpecToken::Entonces {
            if w == "Entonces"@ {
                assert(literal(5usize) == (w, t, literal(5usize).2));
            }
        }
        if t == SpecToken::Sino {
            if w == "Sino"@ {
                assert(literal(6usize) == (w, t, literal(6usize).2));
            }
        }
        if t == SpecToken::FinSi {
            if w == "FinSi"@ {
                assert(literal(7usize) == (w, t, literal(7usize).2));
            }
        }
        if t == SpecToken::Segun {
            if w == "Segun"@ {
                assert(literal(8usize) == (w, t, literal(8usize).2));
            }
        }
        if t == SpecToken::Hacer {
            if w == "Hacer"@ {
                assert(literal(9usize) == (w, t, literal(9usize).2));
            }
        }
        if t == SpecToken::FinSegun {
            if w == "FinSegun"@ {
                assert(literal(10usize) == (w, t, literal(10usize).2));
            }
        }
        if t == SpecToken::Para {
            if w == "Para"@ {
                assert(literal(11usize) == (w, t, literal(11usize).2));
            }
        }
        if t == SpecToken::Hasta {
            if w == "Hasta"@ {
                assert(literal(12usize) == (w, t, literal(12usize).2));
            }
        }
        if t == SpecToken::Paso {
            if w == "Con Paso"@ {
                assert(literal(13usize) == (w, t, literal(13usize).2));
            }
            if w == "Paso"@ {
                assert(literal(14usize) == (w, t, literal(14usize).2));
            }
        }
        if t == SpecToken::FinPara {
            if w == "FinPara"@ {
                assert(literal(15usize) == (w, t, literal(15usize).2));
            }
        }
        if t == SpecToken::Mientras {
            if w == "Mientras"@ {
                assert(literal(16usize) == (w, t, literal(16usize).2));
            }
        }
        if t == SpecToken::FinMientras {
            if w == "FinMientras"@ {
                assert(literal(17usize) == (w, t, literal(17usize).2));
            }
        }
        if t == SpecToken::Repetir {
            if w == "Repetir"@ {
                assert(literal(18usize) == (w, t, literal(18usize).2));
            }
        }
        if t == SpecToken::Que {
            if w == "Que"@ {
                assert(literal(19usize) == (w, t, literal(19usize).2));
            }
        }
        if t == SpecToken::PorReferencia {
            if w == "Por Referencia"@ {
                assert(literal(20usize) == (w, t, literal(20usize).2));
            }
        }
        if t == SpecToken::PorValor {
            if w == "Por Valor"@ {
                assert(literal(21usize) == (w, t, literal(21usize).2));
            }
        }
        if t == SpecToken::Funcion {
            if w == "Funcion"@ {
                assert(literal(22usize) == (w, t, literal(22usize).2));
            }
            if w == "SubProceso"@ {
                assert(literal(23usize) == (w, t, literal(23usize).2));
            }
            if w == "SubAlgoritmo"@ {
                assert(literal(24usize) == (w, t, literal(24usize).2));
            }
        }
        if t == SpecToken::FinFuncion {
            if w == "FinFuncion"@ {
                assert(literal(25usize) == (w, t, literal(25usize).2));
            }
            if w == "FinSubProceso"@ {
                assert(literal(26usize) == (w, t, literal(26usize).2));
            }
            if w == "FinSubAlgoritmo"@ {
                assert(literal(27usize) == (w, t, literal(27usize).2));
            }
        }
        if t == SpecToken::Escribir {
            if w == "Escribir"@ {
                assert(literal(28usize) == (w, t, literal(28usize).2));
            }
        }
        if t == SpecToken::Leer {
            if w == "Leer"@ {
                assert(literal(29usize) == (w, t, literal(29usize).2));
            }
        }
        if t == SpecToken::Definir {
            if w == "Definir"@ {
                assert(literal(30usize) == (w, t, literal(30usize).2));
            }
        }
        if t == SpecToken::Como {
            if w == "Como"@ {
                assert(literal(31usize) == (w, t, literal(31usize).2));
            }
        }
        if t == SpecToken::Dimension {
            if w == "Dimension"@ {
                assert(literal(32usize) == (w, t, literal(32usize).2));
            }
        }
        if t == SpecToken::BorrarPantalla {
            if w == "Borrar Pantalla"@ {
                assert(literal(33usize) == (w, t, literal(33usize).2));
            }
        }
        if t == SpecToken::SinSaltar {
            if w == "Sin Saltar"@ {
                assert(literal(34usize) == (w, t, literal(34usize).2));
            }
        }
        if t == SpecToken::Esperar {
            if w == "Esperar"@ {
                assert(literal(35usize) == (w, t, literal(35usize).2));
            }
        }
        if t == SpecToken::Segundo {
            if w == "Segundos"@ {
                assert(literal(36usize) == (w, t, literal(36usize).2));
            }
            if w == "Segundo"@ {
                assert(literal(37usize) == (w, t, literal(37usize).2));
            }
        }
        if t == SpecToken::Milisegundo {
            if w == "Milisegundos"@ {
                assert(literal(38usize) == (w, t, literal(38usize).2));
            }
            if w == "Milisegundo"@ {
                assert(literal(39usize) == (w, t, literal(39usize).2));
            }
        }
        if t == SpecToken::Tecla {
            if w == "Tecla"@ {
                assert(literal(40usize) == (w, t, literal(40usize).2));
            }
        }
        if t == SpecToken::Entero {
            if w == "Entero"@ {
                assert(literal(41usize) == (w, t, literal(41usize).2));
            }
        }
        if t == SpecToken::Real {
            if w == "Real"@ {
                assert(literal(42usize) == (w, t, literal(42usize).2));
            }
        }
        if t == SpecToken::Caracter {
            if w == "Caracter"@ {
                assert(literal(43usize) == (w, t, literal(43usize).2));
            }
        }
        if t == SpecToken::Logico {
            if w == "Logico"@ {
                assert(literal(44usize) == (w, t, literal(44usize).2));
            }
        }
        if t == SpecToken::Texto {
            if w == "Texto"@ {
                assert(literal(45usize) == (w, t, literal(45usize).2));
            }
            if w == "Cadena"@ {
                assert(literal(46usize) == (w, t, literal(46usize).2));
            }
        }
        if t == SpecToken::Verdadero {
            if w == "Verdadero"@ {
                assert(literal(47usize) == (w, t, literal(47usize).2));
            }
        }
        if t == SpecToken::Falso {
            if w == "Falso"@ {
                assert(literal(48usize) == (w, t, literal(48usize).2));
            }
        }
        if t == SpecToken::Plus {
            if w == "+"@ {
                assert(literal(49usize) == (w, t, literal(49usize).2));
            }
        }
        if t == SpecToken::Minus {
            if w == "-"@ {
                assert(literal(50usize) == (w, t, literal(50usize).2));
            }
        }
        if t == SpecToken::Star {
            if w == "*"@ {
                assert(literal(51usize) == (w, t, literal(51usize).2));
            }
        }
        if t == SpecToken::Slash {
            if w == "/"@ {
                assert(literal(52usize) == (w, t, literal(52usize).2));
            }
        }
        if t == SpecToken::Caret {
            if w == "^"@ {
                assert(literal(53usize) == (w, t, literal(53usize).2));
            }
        }
        if t == SpecToken::Mod {
            if w == "MOD"@ {
                assert(literal(54usize) == (w, t, literal(54usize).2));
            }
            if w == "%"@ {
                assert(literal(55usize) == (w, t, literal(55usize).2));
            }
        }
        if t == SpecToken::Eq {
            if w == "="@ {
                assert(literal(56usize) == (w, t, literal(56usize).2));
            }
        }
        if t == SpecToken::Assign {
            if w == "<-"@ {
                assert(literal(57usize) == (w, t, literal(57usize).2));
            }
            if w == ":="@ {
                assert(literal(58usize) == (w, t, literal(58usize).2));
            }
        }
        if t == SpecToken::Lt {
            if w == "<"@ {
                assert(literal(59usize) == (w, t, literal(59usize).2));
            }
        }
        if t == SpecToken::Gt {
            if w == ">"@ {
                assert(literal(60usize) == (w, t, literal(60usize).2));
            }
        }
        if t == SpecToken::Le {
            if w == "<="@ {
                assert(literal(61usize) == (w, t, literal(61usize).2));
            }
        }
        if t == SpecToken::Ge {
            if w == ">="@ {
                assert(literal(62usize) == (w, t, literal(62usize).2));
            }
        }
        if t == SpecToken::Ne {
            if w == "<>"@ {
                assert(literal(63usize) == (w, t, literal(63usize).2));
            }
        }
        if t == SpecToken::And {
            if w == "&"@ {
                assert(literal(64usize) == (w, t, literal(64usize).2));
            }
            if w == "Y"@ {
                assert(literal(65usize) == (w, t, literal(65usize).2));
            }
        }
        if t == SpecToken::Or {
            if w == "|"@ {
                assert(literal(66usize) == (w, t, literal(66usize).2));
            }
            if w == "O"@ {
                assert(literal(67usize) == (w, t, literal(67usize).2));
            }
        }
        if t == SpecToken::Not {
            if w == "~"@ {
                assert(literal(68usize) == (w, t, literal(68usize).2));
            }
            if w == "NO"@ {
                assert(literal(69usize) == (w, t, literal(69usize).2));
            }
        }
        if t == SpecToken::LParen {
            if w == "("@ {
                assert(literal(70usize) == (w, t, literal(70usize).2));
            }
        }
        if t == SpecToken::RParen {
            if w == ")"@ {
                assert(literal(71usize) == (w, t, literal(71usize).2));
            }
        }
        if t == SpecToken::LBracket {
            if w == "["@ {
                assert(literal(72usize) == (w, t, literal(72usize).2));
            }
        }
        if t == SpecToken::RBracket {
            if w == "]"@ {
                assert(literal(73usize) == (w, t, literal(73usize).2));
            }
        }
        if t == SpecToken::Comma {
            if w == ","@ {
                assert(literal(74usize) == (w, t, literal(74usize).2));
            }
        }
        if t == SpecToken::Semi {
            if w == ";"@ {
                assert(literal(75usize) == (w, t, literal(75usize).2));
            }
        }
        if t == SpecToken::Colon {
            if w == ":"@ {
                assert(literal(76usize) == (w, t, literal(76usize).2));
            }
        }
    }
}

proof fn lemma_best_literal_spelled(s: Seq<char>, p: int, k: usize)
    requires
        k <= LITERAL_COUNT,
        best_literal(s, p, k).0 > 0,
    ensures
        best_literal(s, p, k).1 < k,
        spelled_at(s, p, literal(best_literal(s, p, k).1).0, literal(best_literal(s, p, k).1).2),
        literal(best_literal(s, p, k).1).0.len() == best_literal(s, p, k).0,
    decreases k,
{
    if k > 0 {
        let prev = best_literal(s, p, (k - 1) as usize);
        let e = literal((k - 1) as usize);
        if !(spelled_at(s, p, e.0, e.2) && e.0.len() > prev.0) {
            lemma_best_literal_spelled(s, p, (k - 1) as usize);
        }
    }
}

/// A fixed token comes only from text that spells it: when the lexer
/// reads a keyword or symbol at `p`, the characters it consumes are, up
/// to the case of letters, one of the spellings of that token. So
/// `Caracter` (in any case) is read as Caracter, never as another type.
pub proof fn law_fixed_token_spelled(s: Seq<char>, p: int)
    requires
        0 <= p < s.len(),
    ensures
        lexeme_at(s, p) matches Lexeme::Tok(t, n) ==> (is_fixed_token(t) ==> exists|w: Seq<char>|
            #[trigger] names_token(w, t) && w.len() == n && spelled_at(s, p, w, true)),
{
    law_literal_table_spells_tokens();
    let c = s[p];
    if let Lexeme::Tok(t, n) = lexeme_at(s, p) {
      if is_fixed_token(t) {
        let lit = best_literal(s, p, LITERAL_COUNT);
        assert(!is_blank(c) && !(c == '/' && p + 1 < s.len() && s[p + 1] == '/') && !(c == '"'
            || c == '\'') && !is_digit(c));
        assert(lit.0 > 0);
        lemma_best_literal_spelled(s, p, LITERAL_COUNT);
        let e = literal(lit.1);
        assert(t == e.1 && n == e.0.len());
        assert(names_token(e.0, e.1));
        assert forall|i: int| 0 <= i < e.0.len() implies #[trigger] same_char(s[p + i], e.0[i], true) by {
            assert(same_char(s[p + i], e.0[i], e.2));
        }
        assert(spelled_at(s, p, e.0, true));
      }
    }
}

/// The text of `s` from `a` to `b`.
fn text_of(s: &Vec<char>, a: usize, b: usize) -> (r: String)
    requires
        a <= b <= s.len(),
    ensures
        r@ == s@.subrange(a as int, b as int),
{
    let mut r = String::new();
    let mut j = a;
    while j < b
        invariant
            a <= j <= b <= s.len(),
            r@ == s@.subrange(a as int, j as int),
        decreases b - j,
    {
        push_char(&mut r, s[j]);
        assert(s@.subrange(a as int, j + 1) =~= s@.subrange(a as int, j as int).push(s@[j as int]));
        j += 1;
    }
    r
}

/// The value of the numeral `s[a..b]`, or `None` when it exceeds `i64::MAX`.
fn numeral_exec(s: &Vec<char>, a: usize, b: usize) -> (r: Option<i64>)
    requires
        a <= b <= s.len(),
        forall|i: int| a <= i < b ==> #[trigger] is_digit(s@[i]),
    ensures
        match r {
            Some(v) => v as int == numeral_value(s@.subrange(a as int, b as int)),
            None => numeral_value(s@.subrange(a as int, b as int)) > i64::MAX,
        },
{
    let mut v: i64 = 0;
    let mut over = false;
    let mut j = a;
    assert(s@.subrange(a as int, a as int).len() == 0);
    while j < b
        invariant
            a <= j <= b <= s.len(),
            forall|i: int| a <= i < b ==> #[trigger] is_digit(s@[i]),
            !over ==> v as int == numeral_value(s@.subrange(a as int, j as int)),
            !over ==> v >= 0,
            over ==> numeral_value(s@.subrange(a as int, j as int)) > i64::MAX,
        decreases b - j,
    {
        let c = s[j];
        assert(is_digit(s@[j as int]));
        let d: i64 = ((c as u32) - ('0' as u32)) as i64;
        assert(s@.subrange(a as int, j + 1).drop_last() =~= s@.subrange(a as int, j as int));
        if !over {
            match v.checked_mul(10) {
                Some(m) => match m.checked_add(d) {
                    Some(x) => {
                        v = x;
                    },
                    None => {
                        over = true;
                    },
                },
                None => {
                    over = true;
                },
            }
        }
        j += 1;
    }
    if over {
        None
    } else {
        Some(v)
    }
}

fn quote_end_exec(s: &Vec<char>, j0: usize, quote: char) -> (r: Result<usize, usize>)
    requires
        1 <= j0 <= s.len(),
    ensures
        match r {
            Ok(q) => quote_end(s@, j0 as int, quote) == Ok::<int, int>(q as int),
            Err(e) => quote_end(s@, j0 as int, quote) == Err::<int, int>(e as int),
        },
{
    let mut j = j0;
    while j < s.len()
        invariant
            j0 <= j <= s.len(),
            quote_end(s@, j0 as int, quote) == quote_end(s@, j as int, quote),
        decreases s.len() - j,
    {
        let c = s[j];
        if c == quote {
            return Ok(j);
        }
        if c == '\\' {
            if j + 1 < s.len() {
                let e = s[j + 1];
                if e == 't' || e == 'u' || e == 'n' || e == quote {
                    j += 2;
                } else {
                    return Err(j + 1);
                }
            } else {
                return Err(j + 1);
            }
        } else {
            j += 1;
        }
    }
    Err(s.len())
}

enum Step {
    Skip(usize),
    Tok(Token, usize),
    Bad(usize),
}

spec fn step_view(st: Step) -> Lexeme {
    match st {
        Step::Skip(n) => Lexeme::Skip(n as int),
        Step::Tok(t, n) => Lexeme::Tok(t@, n as int),
        Step::Bad(n) => Lexeme::Bad(n as int),
    }
}

fn lexeme_exec(s: &Vec<char>, p: usize) -> (r: Step)
    requires
        p < s.len(),
    ensures
        step_view(r) == lexeme_at(s@, p as int),
{
    let c = s[p];
    proof {
        law_lexeme_advances(s@, p as int);
        lemma_run_bounds(s@, p as int, Class::Digit);
        lemma_run_bounds(s@, p as int, Class::IdentChar);
    }
    if char_in_class(c, Class::Blank) {
        let q = run_end(s, p, Class::Blank);
        Step::Skip(q - p)
    } else if c == '/' && p + 1 < s.len() && s[p + 1] == '/' {
        let q = run_end(s, p + 2, Class::NotNewline);
        Step::Skip(q - p)
    } else if c == '"' || c == '\'' {
        match quote_end_exec(s, p + 1, c) {
            Ok(q) => {
                proof {
                    lemma_quote_end_bounds(s@, p + 1, c);
                }
                Step::Tok(Token::String(text_of(s, p, q + 1)), q + 1 - p)
            },
            Err(e) => {
                proof {
                    lemma_quote_end_bounds(s@, p + 1, c);
                }
                Step::Bad(e - p)
            },
        }
    } else if char_in_class(c, Class::Digit) {
        let q = run_end(s, p, Class::Digit);
        if q < s.len() && s[q] == '.' && q + 1 < s.len() && char_in_class(s[q + 1], Class::Digit) {
            let f = run_end(s, q + 1, Class::Digit);
            Step::Tok(Token::Float(text_of(s, p, f)), f - p)
        } else {
            assert forall|i: int| p <= i < q implies #[trigger] is_digit(s@[i]) by {
                assert(in_class(s@[i], Class::Digit));
            }
            match numeral_exec(s, p, q) {
                Some(v) => Step::Tok(Token::Int(v), q - p),
                None => Step::Bad(q - p),
            }
        }
    } else {
        let (lit_len, lit_idx) = best_literal_exec(s, p);
        let id = if char_in_class(c, Class::IdentChar) && !char_in_class(c, Class::Digit) {
            run_end(s, p, Class::IdentChar) - p
        } else {
            0
        };
        if id > lit_len {
            Step::Tok(Token::Ident(text_of(s, p, p + id)), id)
        } else if lit_len > 0 {
            let (_w, tok, _ci) = literal_entry(lit_idx);
            Step::Tok(tok, lit_len)
        } else {
            Step::Bad(1)
        }
    }
}

/// Cuts a character sequence into tokens and error spans.
pub fn tokenize_chars(s: &Vec<char>) -> (r: Lexed)
    ensures
        toks(r.tokens@) == kinds(scan(s@, 0).0),
        spans_view(r.spans@) == token_spans(scan(s@, 0).0),
        spans_view(r.errors@) == scan(s@, 0).1,
{
    let mut tokens: Vec<Token> = Vec::new();
    let mut spans: Vec<(usize, usize)> = Vec::new();
    let mut errors: Vec<(usize, usize)> = Vec::new();
    let mut p: usize = 0;
    while p < s.len()
        invariant
            p <= s.len(),
            toks(tokens@) + kinds(scan(s@, p as int).0) == kinds(scan(s@, 0).0),
            spans_view(spans@) + token_spans(scan(s@, p as int).0) == token_spans(scan(s@, 0).0),
            spans_view(errors@) + scan(s@, p as int).1 == scan(s@, 0).1,
        decreases s.len() - p,
    {
        proof {
            law_lexeme_advances(s@, p as int);
        }
        let step = lexeme_exec(s, p);
        let ghost tv = toks(tokens@);
        let ghost sv = spans_view(spans@);
        let ghost ev = spans_view(errors@);
        match step {
            Step::Skip(n) => {
                p = p + n;
            },
            Step::Tok(t, n) => {
                let ghost rest = scan(s@, p + n).0;
                let ghost tt = t@;
                tokens.push(t);
                spans.push((p, p + n));
                proof {
                    assert(toks(tokens@) =~= tv.push(tt));
                    assert(spans_view(spans@) =~= sv.push((p as int, p + n)));
                    assert(kinds(seq![(tt, p as int, p + n)] + rest) =~= seq![tt] + kinds(rest));
                    assert(token_spans(seq![(tt, p as int, p + n)] + rest) =~= seq![(p as int, p + n)]
                        + token_spans(rest));
                    assert(tv.push(tt) + kinds(rest) =~= tv + (seq![tt] + kinds(rest)));
                    assert(sv.push((p as int, p + n)) + token_spans(rest) =~= sv + (seq![
                        (p as int, p + n),
                    ] + token_spans(rest)));
                }
                p = p + n;
            },
            Step::Bad(n) => {
                errors.push((p, p + n));
                proof {
                    assert(spans_view(errors@) =~= ev.push((p as int, p + n)));
                    assert(ev.push((p as int, p + n)) + scan(s@, p + n).1 =~= ev + (seq![(p as int, p + n)] + scan(s@, p + n).1));
                }
                p = p + n;
            },
        }
    }
    proof {
        assert(toks(tokens@) + kinds(scan(s@, p as int).0) =~= toks(tokens@));
        assert(spans_view(spans@) + token_spans(scan(s@, p as int).0) =~= spans_view(spans@));
        assert(spans_view(errors@) + scan(s@, p as int).1 =~= spans_view(errors@));
    }
    Lexed { tokens, spans, errors }
}

/// Cuts a source text into tokens and error spans (character offsets).
pub fn tokenize(source: &str) -> (r: Lexed)
    ensures
        toks(r.tokens@) == kinds(scan(source@, 0).0),
        spans_view(r.spans@) == token_spans(scan(source@, 0).0),
        spans_view(r.errors@) == scan(source@, 0).1,
{
    let s = chars_of(source);
    tokenize_chars(&s)
}

} // verus!
