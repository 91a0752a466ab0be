//! Block tokens and the cursor the block parser reads them through.
use vstd::prelude::*;

verus! {

/// What opened a raw region.
#[derive(Debug, Clone, Copy, PartialEq, Eq, Structural)]
pub enum RawTokenKind {
    Element,
    Fenced,
}

/// An open raw region: an opaque element (`pre`, `xmp`, `script`, `style`) or
/// a fenced code block, whose `tag` is the opening fence.
#[derive(Debug, Clone)]
pub struct RawToken {
    pub kind: RawTokenKind,
    pub tag: String,
    pub is_nestable: bool,
}

/// The class of one source line.
#[derive(Debug, Clone, Copy, PartialEq, Eq, Structural)]
pub enum TokenKind {
    Blank,
    EqualsLine,
    DashLine,
    HorizontalRule,
    Head,
    Numbered,
    Bulleted,
    Dt,
    Dd,
    Raw,
    QuoteBlock,
    MarkupBlock,
    Text,
    End,
}

/// One classified line with its indentation level.
#[derive(Debug, Clone)]
pub struct Token {
    pub kind: TokenKind,
    pub line: String,
    pub indent_level: u32,
}

impl Token {
    pub fn new(kind: TokenKind, line: String, indent_level: u32) -> (r: Token)
        ensures
            r.kind == kind,
            r.line@ == line@,
            r.indent_level == indent_level,
    {
        Token { kind, line, indent_level }
    }

    /// The blank token, which stands before every stream.
    pub fn new_blank() -> (r: Token)
        ensures
            r.kind == TokenKind::Blank,
            r.line@.len() == 0,
            r.indent_level == u32::MAX,
    {
        Token::new(TokenKind::Blank, String::new(), u32::MAX)
    }

    /// The end token, which stands after every stream.
    pub fn new_end() -> (r: Token)
        ensures
            r.kind == TokenKind::End,
            r.line@.len() == 0,
            r.indent_level == u32::MAX,
    {
        Token::new(TokenKind::End, String::new(), u32::MAX)
    }

    /// A line inside a raw region, passed through verbatim.
    pub fn new_raw(line: String) -> (r: Token)
        ensures
            r.kind == TokenKind::Raw,
            r.line@ == line@,
            r.indent_level == u32::MAX,
    {
        Token::new(TokenKind::Raw, line, u32::MAX)
    }
}

/// A read cursor over tokens. Before the first token stands a blank token and
/// after the last an end token, so that looking around never fails.
#[derive(Debug)]
pub struct TokenStream {
    pub tokens: Vec<Token>,
    pub curr: usize,
    pub tab_size: u32,
    pub before: Token,
    pub after: Token,
}

impl TokenStream {
    /// The token at `i`: the end token past the last one.
    pub open spec fn nth_spec(&self, i: int) -> Token {
        if 0 <= i < self.tokens@.len() {
            self.tokens@[i]
        } else {
            self.after
        }
    }

    pub open spec fn prev_spec(&self) -> Token {
        if self.curr == 0 {
            self.before
        } else {
            self.nth_spec(self.curr - 1)
        }
    }

    /// The cursor stands on a token or just past the last one, and the two
    /// sentinels are what they are.
    pub open spec fn wf(&self) -> bool {
        &&& self.curr <= self.tokens@.len()
        &&& self.before.kind == TokenKind::Blank
        &&& self.before.indent_level == u32::MAX
        &&& self.before.line@.len() == 0
        &&& self.after.line@.len() == 0
        &&& self.after.kind == TokenKind::End
        &&& self.after.indent_level == u32::MAX
    }

    pub fn new(tokens: Vec<Token>, tab_size: u32) -> (r: TokenStream)
        ensures
            r.wf(),
            r.tokens@ == tokens@,
            r.curr == 0,
            r.tab_size == tab_size,
    {
        TokenStream { tokens, curr: 0, tab_size, before: Token::new_blank(), after: Token::new_end() }
    }

    /// Moves to the next token; past the last one it stays.
    pub fn advance(&mut self)
        ensures
            final(self).tokens == old(self).tokens,
            final(self).tab_size == old(self).tab_size,
            final(self).before == old(self).before,
            final(self).after == old(self).after,
            final(self).curr == if old(self).curr < old(self).tokens@.len() {
                old(self).curr + 1
            } else {
                old(self).curr as int
            },
    {
        if self.curr < self.tokens.len() {
            self.curr = self.curr + 1;
        }
    }

    fn nth(&self, index: usize) -> (r: &Token)
        ensures
            *r == self.nth_spec(index as int),
    {
        if index >= self.tokens.len() {
            &self.after
        } else {
            &self.tokens[index]
        }
    }

    pub fn curr(&self) -> (r: &Token)
        ensures
            *r == self.nth_spec(self.curr as int),
    {
        self.nth(self.curr)
    }

    pub fn prev(&self) -> (r: &Token)
        ensures
            *r == self.prev_spec(),
    {
        if self.curr == 0 {
            &self.before
        } else {
            self.nth(self.curr - 1)
        }
    }

    pub fn next(&self) -> (r: &Token)
        requires
            self.wf(),
        ensures
            *r == self.nth_spec(self.curr + 1),
    {
        if self.curr >= self.tokens.len() {
            &self.after
        } else {
            self.nth(self.curr + 1)
        }
    }

    pub fn next_next(&self) -> (r: &Token)
        requires
            self.wf(),
        ensures
            *r == self.nth_spec(self.curr + 2),
    {
        if self.curr >= self.tokens.len() || self.curr + 1 >= self.tokens.len() {
            &self.after
        } else {
            self.nth(self.curr + 2)
        }
    }

    pub fn tab_size(&self) -> (r: u32)
        ensures
            r == self.tab_size,
    {
        self.tab_size
    }
}

} // verus!
