//! Declared symbols of a source file, for editor tooling.
//!
//! The host's lexer turns the source into lexemes (whitespace and comments
//! already dropped); this module picks out the names that `fn`, `class`, `let`
//! and `const` declare, with their zero-based line and column.
use vstd::prelude::*;

verus! {

#[derive(Debug, Clone, Copy, PartialEq, Eq, Structural)]
pub enum Token {
    Fn,
    Class,
    Let,
    Const,
    Identifier,
    LBrace,
    RBrace,
    Comment,
    Whitespace,
    Error,
}

#[derive(Debug, Clone, Copy, PartialEq, Eq, Structural)]
pub enum SymbolKind {
    Function,
    Class,
    Variable,
}

/// A token with the byte offset where it starts and the text it covers.
#[derive(Debug)]
pub struct Lexeme {
    pub token: Token,
    pub start: usize,
    pub text: String,
}

#[derive(Debug)]
pub struct FskSymbol {
    pub name: String,
    pub kind: SymbolKind,
    pub line: u32,
    pub character: u32,
}

pub struct Analysis {
    pub symbols: Vec<FskSymbol>,
}

#[derive(Debug, Clone, Copy, PartialEq, Eq, Structural)]
pub enum CompletionKind {
    Function,
    Class,
    Variable,
    Keyword,
}

/// An entry of a completion list.
#[derive(Debug)]
pub struct Completion {
    pub label: String,
    pub kind: CompletionKind,
}

pub open spec fn completion_kind_of(k: SymbolKind) -> CompletionKind {
    match k {
        SymbolKind::Function => CompletionKind::Function,
        SymbolKind::Class => CompletionKind::Class,
        SymbolKind::Variable => CompletionKind::Variable,
    }
}

/// The keywords offered after the declared symbols.
pub open spec fn completion_keywords() -> Seq<Seq<char>> {
    seq![
        "fn"@,
        "class"@,
        "let"@,
        "return"@,
        "if"@,
        "else"@,
        "print"@,
        "import"@,
        "async"@,
        "await"@,
    ]
}

pub open spec fn completion_view(c: Completion) -> (Seq<char>, CompletionKind) {
    (c.label@, c.kind)
}

/// The kind of symbol that a keyword declares.
pub open spec fn declared_kind(t: Token) -> Option<SymbolKind> {
    match t {
        Token::Fn => Some(SymbolKind::Function),
        Token::Class => Some(SymbolKind::Class),
        Token::Let | Token::Const => Some(SymbolKind::Variable),
        _ => None,
    }
}

/// The number of line feeds among the first `n` bytes.
pub open spec fn newlines(src: Seq<u8>, n: int) -> int
    decreases n,
{
    if n <= 0 {
        0
    } else {
        newlines(src, n - 1) + if src[n - 1] == 10 {
            1int
        } else {
            0int
        }
    }
}

/// The offset where the line holding offset `n` starts.
pub open spec fn line_start(src: Seq<u8>, n: int) -> int
    decreases n,
{
    if n <= 0 {
        0
    } else if src[n - 1] == 10 {
        n
    } else {
        line_start(src, n - 1)
    }
}

/// A symbol as a tuple: name, kind, line, column.
pub type SymbolView = (Seq<char>, SymbolKind, u32, u32);

pub open spec fn symbol_at(src: Seq<u8>, name: Lexeme, kind: SymbolKind) -> SymbolView {
    (
        name.text@,
        kind,
        newlines(src, name.start as int) as u32,
        (name.start - line_start(src, name.start as int)) as u32,
    )
}

/// The symbols that the lexemes declare: a keyword directly followed by an
/// identifier declares it; the token after a keyword is consumed either way.
pub open spec fn declared(src: Seq<u8>, toks: Seq<Lexeme>) -> Seq<SymbolView>
    decreases toks.len(),
{
    if toks.len() == 0 {
        Seq::empty()
    } else {
        match declared_kind(toks[0].token) {
            Some(k) => if toks.len() < 2 {
                Seq::empty()
            } else if toks[1].token == Token::Identifier {
                seq![symbol_at(src, toks[1], k)] + declared(src, toks.subrange(2, toks.len() as int))
            } else {
                declared(src, toks.subrange(2, toks.len() as int))
            },
            None => declared(src, toks.subrange(1, toks.len() as int)),
        }
    }
}

pub open spec fn symbol_view(s: FskSymbol) -> SymbolView {
    (s.name@, s.kind, s.line, s.character)
}

pub proof fn lemma_line_start_bounds(src: Seq<u8>, n: int)
    requires
        0 <= n <= src.len(),
    ensures
        0 <= line_start(src, n) <= n,
        newlines(src, n) <= n,
        newlines(src, n) >= 0,
    decreases n,
{
    if n > 0 {
        lemma_line_start_bounds(src, n - 1);
    }
}

/// The zero-based line and column of byte offset `off`.
pub fn position(src: &[u8], off: usize) -> (r: (u32, u32))
    requires
        off <= src@.len(),
    ensures
        r.0 == newlines(src@, off as int) as u32,
        r.1 == (off - line_start(src@, off as int)) as u32,
{
    let mut line: usize = 0;
    let mut start: usize = 0;
    let mut j: usize = 0;
    while j < off
        invariant
            off <= src@.len(),
            j <= off,
            line == newlines(src@, j as int),
            start == line_start(src@, j as int),
            start <= j,
        decreases off - j,
    {
        proof {
            lemma_line_start_bounds(src@, j as int);
        }
        if src[j] == 10 {
            line += 1;
            start = j + 1;
        }
        j += 1;
    }
    (line as u32, (off - start) as u32)
}

fn push_keyword(out: &mut Vec<Completion>, word: &str)
    ensures
        final(out)@.map_values(|c: Completion| completion_view(c)) == old(out)@.map_values(
            |c: Completion| completion_view(c),
        ).push((word@, CompletionKind::Keyword)),
{
    let ghost before = out@.map_values(|c: Completion| completion_view(c));
    out.push(Completion { label: word.to_owned(), kind: CompletionKind::Keyword });
    assert(out@.map_values(|c: Completion| completion_view(c)) =~= before.push(
        (word@, CompletionKind::Keyword),
    ));
}

impl Analysis {
    /// The completion list: every declared symbol, in order, then the keywords.
    pub fn completions(&self) -> (r: Vec<Completion>)
        ensures
            r@.map_values(|c: Completion| completion_view(c)) == self.symbols@.map_values(
                |s: FskSymbol| (s.name@, completion_kind_of(s.kind)),
            ) + completion_keywords().map_values(
                |k: Seq<char>| (k, CompletionKind::Keyword),
            ),
    {
        let ghost syms = self.symbols@.map_values(|s: FskSymbol| (s.name@, completion_kind_of(s.kind)));
        let mut out: Vec<Completion> = Vec::new();
        let mut i: usize = 0;
        while i < self.symbols.len()
            invariant
                i <= self.symbols@.len(),
                syms == self.symbols@.map_values(|s: FskSymbol| (s.name@, completion_kind_of(s.kind))),
                out@.map_values(|c: Completion| completion_view(c)) == syms.subrange(0, i as int),
            decreases self.symbols@.len() - i,
        {
            let sym = &self.symbols[i];
            let kind = match sym.kind {
                SymbolKind::Function => CompletionKind::Function,
                SymbolKind::Class => CompletionKind::Class,
                SymbolKind::Variable => CompletionKind::Variable,
            };
            let ghost before = out@.map_values(|c: Completion| completion_view(c));
            let label = sym.name.clone();
            let c = Completion { label, kind };
            assert(completion_view(c) == syms[i as int]);
            out.push(c);
            assert(out@.map_values(|c: Completion| completion_view(c)) =~= before.push(
                syms[i as int],
            ));
            assert(before.push(syms[i as int]) =~= syms.subrange(0, i + 1));
            i += 1;
        }
        push_keyword(&mut out, "fn");
        push_keyword(&mut out, "class");
        push_keyword(&mut out, "let");
        push_keyword(&mut out, "return");
        push_keyword(&mut out, "if");
        push_keyword(&mut out, "else");
        push_keyword(&mut out, "print");
        push_keyword(&mut out, "import");
        push_keyword(&mut out, "async");
        push_keyword(&mut out, "await");
        assert(out@.map_values(|c: Completion| completion_view(c)) =~= syms
            + completion_keywords().map_values(|k: Seq<char>| (k, CompletionKind::Keyword)));
        out
    }

    /// Collects the declared symbols of `source` from its lexemes.
    pub fn new(source: &[u8], lexemes: &Vec<Lexeme>) -> (r: Analysis)
        requires
            forall|i: int| 0 <= i < lexemes@.len() ==> #[trigger] lexemes@[i].start <= source@.len(),
        ensures
            r.symbols@.map_values(|s: FskSymbol| symbol_view(s)) == declared(source@, lexemes@),
    {
        let ghost toks = lexemes@;
        let mut symbols: Vec<FskSymbol> = Vec::new();
        let mut i: usize = 0;
        proof {
            assert(toks.subrange(0, toks.len() as int) =~= toks);
            assert(symbols@.map_values(|s: FskSymbol| symbol_view(s)) =~= Seq::<SymbolView>::empty());
        }
        while i < lexemes.len()
            invariant
                toks == lexemes@,
                i <= toks.len(),
                forall|j: int| 0 <= j < toks.len() ==> #[trigger] toks[j].start <= source@.len(),
                declared(source@, toks) == symbols@.map_values(|s: FskSymbol| symbol_view(s))
                    + declared(source@, toks.subrange(i as int, toks.len() as int)),
            decreases toks.len() - i,
        {
            let ghost rest = toks.subrange(i as int, toks.len() as int);
            let ghost before = symbols@.map_values(|s: FskSymbol| symbol_view(s));
            let kind = match lexemes[i].token {
                Token::Fn => Some(SymbolKind::Function),
                Token::Class => Some(SymbolKind::Class),
                Token::Let | Token::Const => Some(SymbolKind::Variable),
                _ => None,
            };
            match kind {
                None => {
                    assert(rest.subrange(1, rest.len() as int) =~= toks.subrange(
                        i + 1,
                        toks.len() as int,
                    ));
                    i += 1;
                },
                Some(k) => {
                    if i + 1 >= lexemes.len() {
                        assert(declared(source@, rest) =~= Seq::<SymbolView>::empty());
                        assert(toks.subrange(toks.len() as int, toks.len() as int) =~= Seq::<
                            Lexeme,
                        >::empty());
                        i = lexemes.len();
                    } else {
                        assert(rest.subrange(2, rest.len() as int) =~= toks.subrange(
                            i + 2,
                            toks.len() as int,
                        ));
                        if lexemes[i + 1].token == Token::Identifier {
                            let lx = &lexemes[i + 1];
                            let (line, character) = position(source, lx.start);
                            let sym = FskSymbol {
                                name: lx.text.clone(),
                                kind: k,
                                line,
                                character,
                            };
                            assert(symbol_view(sym) == symbol_at(source@, toks[i + 1], k));
                            symbols.push(sym);
                            assert(symbols@.map_values(|s: FskSymbol| symbol_view(s)) =~= before.push(
                                symbol_view(sym),
                            ));
                        }
                        i += 2;
                    }
                },
            }
        }
        proof {
            assert(toks.subrange(i as int, toks.len() as int) =~= Seq::<Lexeme>::empty());
            assert(declared(source@, Seq::<Lexeme>::empty()) =~= Seq::<SymbolView>::empty());
        }
        Analysis { symbols }
    }
}

} // verus!
