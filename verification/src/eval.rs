//! Input evaluation.

use crate::builtins::{self, performs, table, Builtin, Table};
use crate::float::{total, Float, Op};
use crate::integer::{parse_literal, Integer};
use crate::stack::{ItemView, Stack};
use crate::text::{chars_of, same_text, string_of};
use crate::units::catalog::{all_bases, all_units, base_symbols, texts, unit_symbols};
use vstd::prelude::*;

verus! {

/// An evaluation context.
pub struct Context {
    pub stack: Stack,
    pub builtins: Table,
}

/// The result of an evaluation.
#[derive(Debug, PartialEq)]
pub enum Status {
    /// Every token was evaluated.
    Done,
    /// A word that ends the session was met.
    Halt,
    /// The word failed with the error.
    Failed { error: Error, word: String },
}

/// An error that occurred during evaluation.
#[derive(Debug, PartialEq)]
pub enum Error {
    Builtins(builtins::Error),
    UnknownWord,
}

/// A token parsed from user input.
#[derive(Debug)]
pub enum Token {
    Float(Float),
    Integer(Integer),
    Word(String),
}

/// Whether a character is ASCII whitespace: a space, a tab, a line feed, a
/// form feed or a carriage return.
pub open spec fn is_space(c: char) -> bool {
    c == ' ' || c == '\t' || c == '\n' || c == '\x0c' || c == '\r'
}

/// Whether the first `n` characters of `s` are a word: none of them is
/// whitespace, and whitespace or the end follows.
pub open spec fn is_word_end(s: Seq<char>, n: int) -> bool {
    &&& 0 < n <= s.len()
    &&& forall|k: int| 0 <= k < n ==> !is_space(#[trigger] s[k])
    &&& (n == s.len() || is_space(s[n]))
}

/// The words of a line: its runs of characters other than whitespace.
pub open spec fn words(s: Seq<char>) -> Seq<Seq<char>>
    decreases s.len(),
{
    if s.len() == 0 {
        Seq::empty()
    } else if is_space(s[0]) {
        words(s.skip(1))
    } else {
        let n = choose|n: int| is_word_end(s, n);
        if is_word_end(s, n) {
            seq![s.take(n)] + words(s.skip(n))
        } else {
            Seq::empty()
        }
    }
}

/// Splits a line into its words.
pub fn split_words(line: &str) -> (r: Vec<String>)
    ensures
        texts(r@) == words(line@),
{
    let chars = chars_of(line);
    let mut out: Vec<String> = Vec::new();
    let mut i: usize = 0;
    assert(chars@.skip(0) =~= chars@);
    assert(texts(out@) + words(chars@) =~= words(chars@));
    while i < chars.len()
        invariant
            i <= chars.len(),
            texts(out@) + words(chars@.skip(i as int)) == words(chars@),
        decreases chars.len() - i,
    {
        let ghost rest = chars@.skip(i as int);
        if space(chars[i]) {
            assert(rest.skip(1) =~= chars@.skip(i + 1));
            i = i + 1;
        } else {
            let mut j: usize = i + 1;
            let mut word: Vec<char> = Vec::new();
            word.push(chars[i]);
            assert(word@ =~= rest.take(1));
            while j < chars.len() && !space(chars[j])
                invariant
                    i < j <= chars.len(),
                    rest == chars@.skip(i as int),
                    word@ == rest.take(j - i),
                    forall|k: int| 0 <= k < j - i ==> !is_space(#[trigger] rest[k]),
                decreases chars.len() - j,
            {
                word.push(chars[j]);
                assert(word@ =~= rest.take(j + 1 - i));
                j = j + 1;
            }
            proof {
                assert(is_word_end(rest, j - i));
                let n = choose|n: int| is_word_end(rest, n);
                assert(n == j - i) by {
                    if n < j - i {
                        assert(!is_space(rest[n]));
                    }
                    if n > j - i {
                        assert(is_space(rest[j - i]));
                    }
                }
                assert(rest.skip(j - i) =~= chars@.skip(j as int));
            }
            let ghost before = out@;
            let text = string_of(&word);
            out.push(text);
            proof {
                assert(texts(out@) =~= texts(before).push(word@));
                assert(texts(before).push(word@) + words(chars@.skip(j as int)) =~= texts(before) + (
                seq![word@] + words(chars@.skip(j as int))));
            }
            i = j;
        }
    }
    assert(chars@.skip(chars.len() as int) =~= Seq::<char>::empty());
    assert(texts(out@) + Seq::<Seq<char>>::empty() =~= texts(out@));
    out
}

/// Tells whether a character is ASCII whitespace.
fn space(c: char) -> (r: bool)
    ensures
        r == is_space(c),
{
    c == ' ' || c == '\t' || c == '\n' || c == '\x0c' || c == '\r'
}

impl Token {
    /// What a word is taken for: an integer where it is an integer literal,
    /// else the floating-point number that it was read as, if it was, else a
    /// word.
    pub open spec fn of_word(word: Seq<char>, read: Option<Float>, token: Token) -> bool {
        match parse_literal(word) {
            Some(i) => token == Token::Integer(i),
            None => match read {
                Some(x) => token == Token::Float(x),
                None => token matches Token::Word(w) && w@ == word,
            },
        }
    }

    /// Makes a token of a word. `read` is the floating-point number that the
    /// word without its commas denotes, if it denotes one.
    pub fn classify(word: &str, read: Option<Float>) -> (token: Token)
        ensures
            Token::of_word(word@, read, token),
    {
        match Integer::parse(word) {
            Some(i) => Token::Integer(i),
            None => match read {
                Some(x) => Token::Float(x),
                None => Token::Word(word.to_owned()),
            },
        }
    }

    /// Whether the token is one of the words that end a session.
    pub open spec fn halts(self) -> bool {
        self matches Token::Word(w) && (w@ == "exit"@ || w@ == "q"@)
    }
}

/// Whether a word did what it names on a stack: nothing where it names
/// nothing, else what the builtin of that name owes.
pub open spec fn word_done<F: Fn(Op, Float, Float) -> Float>(
    fpu: &F,
    names: Table,
    word: Seq<char>,
    before: Seq<ItemView>,
    after: Seq<ItemView>,
    r: Result<(), Error>,
) -> bool {
    exists|b: Option<Builtin>| #[trigger]
        names.names_it(word, b) && match b {
            None => r == Err::<(), Error>(Error::UnknownWord) && after == before,
            Some(b) => performs(
                fpu,
                b.due(before),
                before,
                after,
                match r {
                    Ok(_) => Ok(()),
                    Err(Error::Builtins(e)) => Err(e),
                    Err(Error::UnknownWord) => Ok(()),
                },
            ) && r != Err::<(), Error>(Error::UnknownWord),
        }
}

/// Whether a token did on a stack what it stands for: a number is pushed; a
/// word does what it names.
pub open spec fn token_done<F: Fn(Op, Float, Float) -> Float>(
    fpu: &F,
    names: Table,
    token: Token,
    before: Seq<ItemView>,
    after: Seq<ItemView>,
    r: Result<(), Error>,
) -> bool {
    match token {
        Token::Float(x) => r is Ok && after == before.push(ItemView::plain(x)),
        Token::Integer(i) => r is Ok && after == before.push(ItemView::Integer(i)),
        Token::Word(w) => word_done(fpu, names, w@, before, after, r),
    }
}

/// Whether a line of tokens was evaluated: token after token did what it
/// stands for, up to the first that failed or that ends the session. A token
/// that fails leaves the stack as the tokens before it left it.
pub open spec fn evaluated<F: Fn(Op, Float, Float) -> Float>(
    fpu: &F,
    names: Table,
    tokens: Seq<Token>,
    before: Seq<ItemView>,
    after: Seq<ItemView>,
    status: Status,
) -> bool
    decreases tokens.len(),
{
    if tokens.len() == 0 {
        status == Status::Done && after == before
    } else if tokens[0].halts() {
        status == Status::Halt && after == before
    } else {
        exists|mid: Seq<ItemView>, r: Result<(), Error>| #[trigger]
            token_done(fpu, names, tokens[0], before, mid, r) && match r {
                Ok(_) => evaluated(fpu, names, tokens.drop_first(), mid, after, status),
                Err(e) => status matches Status::Failed { error, word } && error == e && tokens[0]
                    == Token::Word(word) && after == before && mid == before,
            }
    }
}

impl Context {
    /// The builtins of the context.
    pub open spec fn names(&self) -> Table {
        self.builtins
    }

    /// Creates a new evaluation context with an empty stack and all of the
    /// builtins.
    pub fn new() -> (r: Context)
        ensures
            r.stack@ == Seq::<ItemView>::empty(),
            r.names().catalog().bases() == all_bases(),
            r.names().catalog().units() == all_units(),
    {
        Context { stack: Stack::new(), builtins: table() }
    }

    /// Evaluates a line of tokens. Returns `Halt` if `exit` or `q` are
    /// evaluated.
    pub fn eval<F: Fn(Op, Float, Float) -> Float>(&mut self, tokens: &Vec<Token>, fpu: &F) -> (status:
        Status)
        requires
            total(fpu),
        ensures
            final(self).names() == old(self).names(),
            evaluated(fpu, old(self).names(), tokens@, old(self).stack@, final(self).stack@, status),
    {
        let status = self.eval_from(tokens, 0, fpu);
        assert(tokens@.skip(0) =~= tokens@);
        status
    }

    fn eval_from<F: Fn(Op, Float, Float) -> Float>(
        &mut self,
        tokens: &Vec<Token>,
        from: usize,
        fpu: &F,
    ) -> (status: Status)
        requires
            total(fpu),
            from <= tokens.len(),
        ensures
            final(self).names() == old(self).names(),
            evaluated(
                fpu,
                old(self).names(),
                tokens@.skip(from as int),
                old(self).stack@,
                final(self).stack@,
                status,
            ),
        decreases tokens.len() - from,
    {
        if from >= tokens.len() {
            return Status::Done;
        }
        let ghost rest = tokens@.skip(from as int);
        let ghost before = self.stack@;
        proof {
            assert(rest[0] == tokens@[from as int]);
            assert(rest.drop_first() =~= tokens@.skip(from + 1));
        }
        match &tokens[from] {
            Token::Float(x) => {
                self.eval_float(*x);
                proof {
                    assert(token_done(fpu, self.names(), rest[0], before, self.stack@, Ok(())));
                }
            },
            Token::Integer(i) => {
                self.eval_integer(*i);
                proof {
                    assert(token_done(fpu, self.names(), rest[0], before, self.stack@, Ok(())));
                }
            },
            Token::Word(w) => {
                if same_text(w.as_str(), "exit") || same_text(w.as_str(), "q") {
                    return Status::Halt;
                }
                match self.eval_word(w.as_str(), fpu) {
                    Ok(_) => {
                        proof {
                            assert(token_done(fpu, self.names(), rest[0], before, self.stack@, Ok(())));
                        }
                    },
                    Err(e) => {
                        proof {
                            assert(token_done(
                                fpu,
                                self.names(),
                                rest[0],
                                before,
                                self.stack@,
                                Err(e),
                            ));
                        }
                        return Status::Failed { error: e, word: w.clone() };
                    },
                }
            },
        }
        self.eval_from(tokens, from + 1, fpu)
    }

    /// Evaluates an integer by pushing it onto the stack.
    pub fn eval_integer(&mut self, x: Integer)
        ensures
            final(self).names() == old(self).names(),
            final(self).stack@ == old(self).stack@.push(ItemView::Integer(x)),
    {
        self.stack.pushi(x);
    }

    /// Evaluates a floating point number token by pushing it onto the stack.
    pub fn eval_float(&mut self, x: Float)
        ensures
            final(self).names() == old(self).names(),
            final(self).stack@ == old(self).stack@.push(ItemView::plain(x)),
    {
        self.stack.pushx(x);
    }

    /// Evaluates a word token by looking for a builtin with the name contained
    /// in the token and executing it.
    ///
    /// # Errors
    /// Returns an error if:
    /// - no builtin named `w` exists; or,
    /// - the builtin returns an error.
    pub fn eval_word<F: Fn(Op, Float, Float) -> Float>(&mut self, w: &str, fpu: &F) -> (r: Result<
        (),
        Error,
    >)
        requires
            total(fpu),
        ensures
            final(self).names() == old(self).names(),
            word_done(fpu, old(self).names(), w@, old(self).stack@, final(self).stack@, r),
            r is Err ==> final(self).stack@ == old(self).stack@,
    {
        let found = self.builtins.get(w);
        match found {
            Some(f) => match f.run(&mut self.stack, fpu) {
                Ok(_) => Ok(()),
                Err(e) => Err(Error::Builtins(e)),
            },
            None => Err(Error::UnknownWord),
        }
    }

    /// Returns the names of all the builtins, in no particular order.
    pub fn builtin_names(&self) -> (r: Vec<String>)
        ensures
            texts(r@) == builtins::words() + unit_symbols(self.names().catalog().units())
                + base_symbols(self.names().catalog().bases()),
    {
        self.builtins.names()
    }
}

impl Default for Context {
    fn default() -> (r: Context)
        ensures
            r.stack@ == Seq::<ItemView>::empty(),
            r.names().catalog().bases() == all_bases(),
            r.names().catalog().units() == all_units(),
    {
        Context::new()
    }
}

} // verus!
