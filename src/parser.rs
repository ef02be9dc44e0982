use vstd::prelude::*;
use crate::number::{isize_of, isize_token, usize_of, usize_token};
use crate::point::Point;
use crate::shape::Shape;
use crate::text::split_on;

verus! {

/// What one line of input asks for.
#[derive(Debug, Clone, Copy, PartialEq, Eq, Structural)]
pub enum Commands {
    Clear,
    Draw(usize, Point, char),
    Fill(char),
    Help,
    List,
    New(isize, isize),
    NewShape(Shape),
    Print,
    Quit,
    Replace(char, char),
    Resize(isize, isize),
}

/// The kinds of rejection, without the offending text.
#[derive(Debug, Clone, Copy, PartialEq, Eq, Structural)]
pub enum ErrorKind {
    InvalidCommand,
    TooManyArguments,
    MissingArguments,
    NotNumber,
    NonPositiveInteger,
    InvalidShapeType,
}

/// Why a line was rejected, with the text that caused it.
#[derive(Debug, Clone, PartialEq, Eq)]
pub enum ParseError {
    InvalidCommand(String),
    TooManyArguments(String),
    MissingArguments(String),
    NotNumber(String),
    NonPositiveInteger(String),
    InvalidShapeType(String),
}

impl View for ParseError {
    type V = (ErrorKind, Seq<char>);

    open spec fn view(&self) -> (ErrorKind, Seq<char>) {
        match self {
            ParseError::InvalidCommand(t) => (ErrorKind::InvalidCommand, t@),
            ParseError::TooManyArguments(t) => (ErrorKind::TooManyArguments, t@),
            ParseError::MissingArguments(t) => (ErrorKind::MissingArguments, t@),
            ParseError::NotNumber(t) => (ErrorKind::NotNumber, t@),
            ParseError::NonPositiveInteger(t) => (ErrorKind::NonPositiveInteger, t@),
            ParseError::InvalidShapeType(t) => (ErrorKind::InvalidShapeType, t@),
        }
    }
}

/// The outcome of parsing, with an error seen as its kind and text.
pub type Parsed = Result<Commands, (ErrorKind, Seq<char>)>;

pub open spec fn parsed_view(r: Result<Commands, ParseError>) -> Parsed {
    match r {
        Ok(c) => Ok(c),
        Err(e) => Err(e@),
    }
}

/// A one-character argument.
pub open spec fn glyph_of(t: Seq<char>) -> Result<char, ErrorKind> {
    if t.len() == 1 {
        Ok(t[0])
    } else if t.len() == 0 {
        Err(ErrorKind::MissingArguments)
    } else {
        Err(ErrorKind::TooManyArguments)
    }
}

/// `fill <char>`, where `args` is all the text after the keyword.
pub open spec fn fill_spec(s: Seq<char>, args: Seq<char>) -> Parsed {
    if args.len() == 1 {
        Ok(Commands::Fill(args[0]))
    } else if args.len() == 0 {
        Err((ErrorKind::MissingArguments, s))
    } else {
        Err((ErrorKind::TooManyArguments, args))
    }
}

/// `replace <char> <char>`.
pub open spec fn replace_spec(s: Seq<char>, toks: Seq<Seq<char>>) -> Parsed {
    if toks.len() > 2 {
        Err((ErrorKind::TooManyArguments, s))
    } else if toks.len() < 2 {
        Err((ErrorKind::MissingArguments, s))
    } else {
        match glyph_of(toks[0]) {
            Err(k) => Err((k, s)),
            Ok(a) => match glyph_of(toks[1]) {
                Err(k) => Err((k, s)),
                Ok(b) => Ok(Commands::Replace(a, b)),
            },
        }
    }
}

/// `<width> <height>`, both positive, as `new` and `resize` take them.
pub open spec fn dims_spec(s: Seq<char>, args: Seq<char>, toks: Seq<Seq<char>>) -> Result<(isize, isize), (ErrorKind, Seq<char>)> {
    if toks.len() > 2 {
        Err((ErrorKind::TooManyArguments, s))
    } else if toks.len() < 2 {
        Err((ErrorKind::MissingArguments, s))
    } else {
        match (isize_of(toks[0]), isize_of(toks[1])) {
            (Some(w), Some(h)) => if w <= 0 || h <= 0 {
                Err((ErrorKind::NonPositiveInteger, args))
            } else {
                Ok((w, h))
            },
            _ => Err((ErrorKind::NotNumber, args)),
        }
    }
}

/// `new shape circle <radius>` or `new shape square <width> <height>`; `toks`
/// are the words after `new`, the first of which is `shape`.
pub open spec fn shape_spec(s: Seq<char>, args: Seq<char>, toks: Seq<Seq<char>>) -> Parsed {
    if toks.len() < 2 {
        Err((ErrorKind::MissingArguments, s))
    } else if toks[1] == "circle"@ {
        if toks.len() > 3 {
            Err((ErrorKind::TooManyArguments, s))
        } else if toks.len() < 3 {
            Err((ErrorKind::MissingArguments, s))
        } else {
            match isize_of(toks[2]) {
                None => Err((ErrorKind::NotNumber, toks[2])),
                Some(r) => if r <= 0 {
                    Err((ErrorKind::NonPositiveInteger, args))
                } else {
                    Ok(Commands::NewShape(Shape::Circle(r)))
                },
            }
        }
    } else if toks[1] == "square"@ {
        if toks.len() > 4 {
            Err((ErrorKind::TooManyArguments, s))
        } else if toks.len() < 4 {
            Err((ErrorKind::MissingArguments, s))
        } else {
            match isize_of(toks[2]) {
                None => Err((ErrorKind::NotNumber, toks[2])),
                Some(w) => match isize_of(toks[3]) {
                    None => Err((ErrorKind::NotNumber, toks[3])),
                    Some(h) => if w <= 0 || h <= 0 {
                        Err((ErrorKind::NonPositiveInteger, args))
                    } else {
                        Ok(Commands::NewShape(Shape::Square(w, h)))
                    },
                },
            }
        }
    } else {
        Err((ErrorKind::InvalidShapeType, toks[1]))
    }
}

/// `draw <shape index> <x> <y> <char>`.
pub open spec fn draw_spec(s: Seq<char>, toks: Seq<Seq<char>>) -> Parsed {
    if toks.len() > 4 {
        Err((ErrorKind::TooManyArguments, s))
    } else if toks.len() < 4 {
        Err((ErrorKind::MissingArguments, s))
    } else {
        match usize_of(toks[0]) {
            None => Err((ErrorKind::NotNumber, toks[0])),
            Some(i) => match isize_of(toks[1]) {
                None => Err((ErrorKind::NotNumber, toks[1])),
                Some(x) => match isize_of(toks[2]) {
                    None => Err((ErrorKind::NotNumber, toks[2])),
                    Some(y) => match glyph_of(toks[3]) {
                        Err(k) => Err((k, s)),
                        Ok(g) => Ok(Commands::Draw(i, Point { x, y }, g)),
                    },
                },
            },
        }
    }
}

/// The command that the line `s` writes: the keyword runs up to the first
/// space, and the rest of the line holds the arguments, one per space-separated
/// word.
pub open spec fn parse_spec(s: Seq<char>) -> Parsed {
    let words = split_on(s, ' ');
    let kw = words[0];
    if words.len() == 1 {
        if kw == "print"@ {
            Ok(Commands::Print)
        } else if kw == "quit"@ {
            Ok(Commands::Quit)
        } else if kw == "help"@ {
            Ok(Commands::Help)
        } else if kw == "clear"@ {
            Ok(Commands::Clear)
        } else if kw == "list"@ {
            Ok(Commands::List)
        } else {
            Err((ErrorKind::InvalidCommand, s))
        }
    } else {
        let args = s.skip(kw.len() + 1 as int);
        let toks = split_on(args, ' ');
        if kw == "fill"@ {
            fill_spec(s, args)
        } else if kw == "replace"@ {
            replace_spec(s, toks)
        } else if kw == "new"@ {
            if toks[0] == "shape"@ {
                shape_spec(s, args, toks)
            } else {
                match dims_spec(s, args, toks) {
                    Ok((w, h)) => Ok(Commands::New(w, h)),
                    Err(e) => Err(e),
                }
            }
        } else if kw == "resize"@ {
            match dims_spec(s, args, toks) {
                Ok((w, h)) => Ok(Commands::Resize(w, h)),
                Err(e) => Err(e),
            }
        } else if kw == "draw"@ {
            draw_spec(s, toks)
        } else {
            Err((ErrorKind::InvalidCommand, s))
        }
    }
}

/// The characters of `s`, one per element.
fn chars_of(s: &str) -> (r: Vec<char>)
    ensures
        r@ == s@,
{
    let n = s.unicode_len();
    let mut r: Vec<char> = Vec::new();
    let mut i: usize = 0;
    while i < n
        invariant
            n == s@.len(),
            i <= n,
            r@ =~= s@.take(i as int),
        decreases n - i,
    {
        r.push(s.get_char(i));
        i = i + 1;
    }
    assert(s@.take(n as int) =~= s@);
    r
}

/// Whether `chars[lo..hi]` is the word `w`.
fn word_is(chars: &Vec<char>, lo: usize, hi: usize, w: &str) -> (r: bool)
    requires
        lo <= hi <= chars@.len(),
    ensures
        r == (chars@.subrange(lo as int, hi as int) == w@),
{
    let n = w.unicode_len();
    if hi - lo != n {
        return false;
    }
    let mut i: usize = 0;
    while i < n
        invariant
            n == w@.len(),
            hi - lo == n,
            lo <= hi <= chars@.len(),
            i <= n,
            forall|j: int| 0 <= j < i ==> chars@[lo + j] == w@[j],
        decreases n - i,
    {
        if chars[lo + i] != w.get_char(i) {
            assert(chars@.subrange(lo as int, hi as int)[i as int] != w@[i as int]);
            return false;
        }
        i = i + 1;
    }
    assert(chars@.subrange(lo as int, hi as int) =~= w@);
    true
}

/// The text of `s` between character positions `lo` and `hi`.
fn text_of(s: &str, lo: usize, hi: usize) -> (r: String)
    requires
        lo <= hi <= s@.len(),
    ensures
        r@ == s@.subrange(lo as int, hi as int),
{
    String::from_str(s.substring_char(lo, hi))
}

/// `r` holds the bounds of the space-separated words of `chars[from..]`.
spec fn words_of(chars: Seq<char>, from: int, r: Seq<(usize, usize)>) -> bool {
    let w = split_on(chars.skip(from), ' ');
    &&& r.len() == w.len()
    &&& r.len() >= 1
    &&& r[0].0 == from
    &&& forall|k: int| 0 <= k < r.len() ==> from <= (#[trigger] r[k]).0 <= r[k].1 <= chars.len()
    &&& forall|k: int| 0 <= k < r.len() ==> chars.subrange((#[trigger] r[k]).0 as int, r[k].1 as int) == w[k]
    &&& forall|k: int| 1 <= k < r.len() ==> (#[trigger] r[k]).0 == r[k - 1].1 + 1
}

/// The bounds of the space-separated words of `chars[from..]`: each word starts
/// one past the end of the one before, and the first starts at `from`.
fn split_words(chars: &Vec<char>, from: usize) -> (r: Vec<(usize, usize)>)
    requires
        from <= chars@.len(),
    ensures
        words_of(chars@, from as int, r@),
{
    let n = chars.len();
    let mut r: Vec<(usize, usize)> = Vec::new();
    let mut start: usize = from;
    let mut i: usize = from;
    while i < n
        invariant
            n == chars@.len(),
            from <= start <= i <= n,
            r@.len() + 1 == split_on(chars@.subrange(from as int, i as int), ' ').len(),
            r@.len() == 0 ==> start == from,
            r@.len() > 0 ==> r@[0].0 == from && start == r@.last().1 + 1,
            forall|k: int| 0 <= k < r@.len() ==> from <= (#[trigger] r@[k]).0 <= r@[k].1 < start,
            forall|k: int| 0 <= k < r@.len() ==>
                chars@.subrange((#[trigger] r@[k]).0 as int, r@[k].1 as int)
                    == split_on(chars@.subrange(from as int, i as int), ' ')[k],
            chars@.subrange(start as int, i as int)
                == split_on(chars@.subrange(from as int, i as int), ' ').last(),
            forall|k: int| 1 <= k < r@.len() ==> (#[trigger] r@[k]).0 == r@[k - 1].1 + 1,
        decreases n - i,
    {
        let ghost before = chars@.subrange(from as int, i as int);
        let ghost after = chars@.subrange(from as int, i + 1);
        assert(after.drop_last() =~= before);
        assert(after.last() == chars@[i as int]);
        if chars[i] == ' ' {
            r.push((start, i));
            start = i + 1;
            assert(chars@.subrange(start as int, i + 1) =~= Seq::<char>::empty());
        } else {
            assert(chars@.subrange(start as int, i + 1) =~= chars@.subrange(start as int, i as int).push(chars@[i as int]));
        }
        i = i + 1;
    }
    r.push((start, n));
    assert(chars@.subrange(from as int, n as int) =~= chars@.skip(from as int));
    r
}

fn error_of(kind: ErrorKind, text: String) -> (r: ParseError)
    ensures
        r@ == (kind, text@),
{
    match kind {
        ErrorKind::InvalidCommand => ParseError::InvalidCommand(text),
        ErrorKind::TooManyArguments => ParseError::TooManyArguments(text),
        ErrorKind::MissingArguments => ParseError::MissingArguments(text),
        ErrorKind::NotNumber => ParseError::NotNumber(text),
        ErrorKind::NonPositiveInteger => ParseError::NonPositiveInteger(text),
        ErrorKind::InvalidShapeType => ParseError::InvalidShapeType(text),
    }
}

fn glyph_token(chars: &Vec<char>, lo: usize, hi: usize) -> (r: Result<char, ErrorKind>)
    requires
        lo <= hi <= chars@.len(),
    ensures
        r == glyph_of(chars@.subrange(lo as int, hi as int)),
{
    if hi - lo == 1 {
        Ok(chars[lo])
    } else if hi == lo {
        Err(ErrorKind::MissingArguments)
    } else {
        Err(ErrorKind::TooManyArguments)
    }
}

fn parse_fill(s: &str, chars: &Vec<char>, a: usize) -> (r: Result<Commands, ParseError>)
    requires
        chars@ == s@,
        a <= chars@.len(),
    ensures
        parsed_view(r) == fill_spec(s@, s@.skip(a as int)),
{
    let n = chars.len();
    assert(s@.skip(a as int) =~= s@.subrange(a as int, n as int));
    if n - a == 1 {
        Ok(Commands::Fill(chars[a]))
    } else if n == a {
        assert(s@.subrange(0, n as int) =~= s@);
        Err(ParseError::MissingArguments(text_of(s, 0, n)))
    } else {
        Err(ParseError::TooManyArguments(text_of(s, a, n)))
    }
}

fn parse_replace(s: &str, chars: &Vec<char>, a: usize, toks: &Vec<(usize, usize)>) -> (r: Result<Commands, ParseError>)
    requires
        chars@ == s@,
        a <= chars@.len(),
        words_of(chars@, a as int, toks@),
    ensures
        parsed_view(r) == replace_spec(s@, split_on(s@.skip(a as int), ' ')),
{
    let n = chars.len();
    assert(s@.subrange(0, n as int) =~= s@);
    if toks.len() > 2 {
        return Err(ParseError::TooManyArguments(text_of(s, 0, n)));
    }
    if toks.len() < 2 {
        return Err(ParseError::MissingArguments(text_of(s, 0, n)));
    }
    let (lo0, hi0) = toks[0];
    let (lo1, hi1) = toks[1];
    assert(toks@[0].0 <= toks@[0].1 && toks@[1].0 <= toks@[1].1);
    match glyph_token(chars, lo0, hi0) {
        Err(k) => Err(error_of(k, text_of(s, 0, n))),
        Ok(c0) => match glyph_token(chars, lo1, hi1) {
            Err(k) => Err(error_of(k, text_of(s, 0, n))),
            Ok(c1) => Ok(Commands::Replace(c0, c1)),
        },
    }
}

fn parse_dims(s: &str, chars: &Vec<char>, a: usize, toks: &Vec<(usize, usize)>) -> (r: Result<(isize, isize), ParseError>)
    requires
        chars@ == s@,
        a <= chars@.len(),
        words_of(chars@, a as int, toks@),
    ensures
        match r {
            Ok(p) => dims_spec(s@, s@.skip(a as int), split_on(s@.skip(a as int), ' ')) == Ok::<(isize, isize), (ErrorKind, Seq<char>)>(p),
            Err(e) => dims_spec(s@, s@.skip(a as int), split_on(s@.skip(a as int), ' ')) == Err::<(isize, isize), (ErrorKind, Seq<char>)>(e@),
        },
{
    let n = chars.len();
    assert(s@.subrange(0, n as int) =~= s@);
    assert(s@.skip(a as int) =~= s@.subrange(a as int, n as int));
    if toks.len() > 2 {
        return Err(ParseError::TooManyArguments(text_of(s, 0, n)));
    }
    if toks.len() < 2 {
        return Err(ParseError::MissingArguments(text_of(s, 0, n)));
    }
    let (lo0, hi0) = toks[0];
    let (lo1, hi1) = toks[1];
    assert(toks@[0].0 <= toks@[0].1 && toks@[1].0 <= toks@[1].1);
    let w = isize_token(chars, lo0, hi0);
    let h = isize_token(chars, lo1, hi1);
    match (w, h) {
        (Some(w), Some(h)) => {
            if w <= 0 || h <= 0 {
                Err(ParseError::NonPositiveInteger(text_of(s, a, n)))
            } else {
                Ok((w, h))
            }
        },
        _ => Err(ParseError::NotNumber(text_of(s, a, n))),
    }
}

fn parse_shape(s: &str, chars: &Vec<char>, a: usize, toks: &Vec<(usize, usize)>) -> (r: Result<Commands, ParseError>)
    requires
        chars@ == s@,
        a <= chars@.len(),
        words_of(chars@, a as int, toks@),
    ensures
        parsed_view(r) == shape_spec(s@, s@.skip(a as int), split_on(s@.skip(a as int), ' ')),
{
    let n = chars.len();
    let ghost t = split_on(s@.skip(a as int), ' ');
    assert(s@.subrange(0, n as int) =~= s@);
    assert(s@.skip(a as int) =~= s@.subrange(a as int, n as int));
    if toks.len() < 2 {
        return Err(ParseError::MissingArguments(text_of(s, 0, n)));
    }
    let (lo1, hi1) = toks[1];
    assert(toks@[1].0 <= toks@[1].1);
    if word_is(chars, lo1, hi1, "circle") {
        if toks.len() > 3 {
            return Err(ParseError::TooManyArguments(text_of(s, 0, n)));
        }
        if toks.len() < 3 {
            return Err(ParseError::MissingArguments(text_of(s, 0, n)));
        }
        let (lo2, hi2) = toks[2];
        assert(toks@[2].0 <= toks@[2].1);
        match isize_token(chars, lo2, hi2) {
            None => Err(ParseError::NotNumber(text_of(s, lo2, hi2))),
            Some(radius) => {
                if radius <= 0 {
                    Err(ParseError::NonPositiveInteger(text_of(s, a, n)))
                } else {
                    Ok(Commands::NewShape(Shape::Circle(radius)))
                }
            },
        }
    } else if word_is(chars, lo1, hi1, "square") {
        if toks.len() > 4 {
            return Err(ParseError::TooManyArguments(text_of(s, 0, n)));
        }
        if toks.len() < 4 {
            return Err(ParseError::MissingArguments(text_of(s, 0, n)));
        }
        let (lo2, hi2) = toks[2];
        let (lo3, hi3) = toks[3];
        assert(toks@[2].0 <= toks@[2].1 && toks@[3].0 <= toks@[3].1);
        match isize_token(chars, lo2, hi2) {
            None => Err(ParseError::NotNumber(text_of(s, lo2, hi2))),
            Some(w) => match isize_token(chars, lo3, hi3) {
                None => Err(ParseError::NotNumber(text_of(s, lo3, hi3))),
                Some(h) => {
                    if w <= 0 || h <= 0 {
                        Err(ParseError::NonPositiveInteger(text_of(s, a, n)))
                    } else {
                        Ok(Commands::NewShape(Shape::Square(w, h)))
                    }
                },
            },
        }
    } else {
        Err(ParseError::InvalidShapeType(text_of(s, lo1, hi1)))
    }
}

fn parse_draw(s: &str, chars: &Vec<char>, a: usize, toks: &Vec<(usize, usize)>) -> (r: Result<Commands, ParseError>)
    requires
        chars@ == s@,
        a <= chars@.len(),
        words_of(chars@, a as int, toks@),
    ensures
        parsed_view(r) == draw_spec(s@, split_on(s@.skip(a as int), ' ')),
{
    let n = chars.len();
    assert(s@.subrange(0, n as int) =~= s@);
    if toks.len() > 4 {
        return Err(ParseError::TooManyArguments(text_of(s, 0, n)));
    }
    if toks.len() < 4 {
        return Err(ParseError::MissingArguments(text_of(s, 0, n)));
    }
    let (lo0, hi0) = toks[0];
    let (lo1, hi1) = toks[1];
    let (lo2, hi2) = toks[2];
    let (lo3, hi3) = toks[3];
    assert(toks@[0].0 <= toks@[0].1 && toks@[1].0 <= toks@[1].1);
    assert(toks@[2].0 <= toks@[2].1 && toks@[3].0 <= toks@[3].1);
    let index = match usize_token(chars, lo0, hi0) {
        None => return Err(ParseError::NotNumber(text_of(s, lo0, hi0))),
        Some(i) => i,
    };
    let x = match isize_token(chars, lo1, hi1) {
        None => return Err(ParseError::NotNumber(text_of(s, lo1, hi1))),
        Some(x) => x,
    };
    let y = match isize_token(chars, lo2, hi2) {
        None => return Err(ParseError::NotNumber(text_of(s, lo2, hi2))),
        Some(y) => y,
    };
    match glyph_token(chars, lo3, hi3) {
        Err(k) => Err(error_of(k, text_of(s, 0, n))),
        Ok(g) => Ok(Commands::Draw(index, Point::new(x, y), g)),
    }
}

/// Turns one line of input into the command it writes, or says why it writes
/// none.
pub fn parse_to_command(input: String) -> (r: Result<Commands, ParseError>)
    ensures
        parsed_view(r) == parse_spec(input@),
{
    let s = input.as_str();
    let chars = chars_of(s);
    let n = chars.len();
    let words = split_words(&chars, 0);
    assert(chars@.skip(0) =~= chars@);
    let (k0, k1) = words[0];
    assert(words@[0].0 <= words@[0].1);
    if words.len() == 1 {
        if word_is(&chars, k0, k1, "print") {
            Ok(Commands::Print)
        } else if word_is(&chars, k0, k1, "quit") {
            Ok(Commands::Quit)
        } else if word_is(&chars, k0, k1, "help") {
            Ok(Commands::Help)
        } else if word_is(&chars, k0, k1, "clear") {
            Ok(Commands::Clear)
        } else if word_is(&chars, k0, k1, "list") {
            Ok(Commands::List)
        } else {
            Err(ParseError::InvalidCommand(input))
        }
    } else {
        assert(words@[1].0 == words@[0].1 + 1 && words@[1].0 <= n);
        let a = k1 + 1;
        assert(chars@.subrange(k0 as int, k1 as int).len() == k1);
        let toks = split_words(&chars, a);
        if word_is(&chars, k0, k1, "fill") {
            parse_fill(s, &chars, a)
        } else if word_is(&chars, k0, k1, "replace") {
            parse_replace(s, &chars, a, &toks)
        } else if word_is(&chars, k0, k1, "new") {
            let (t0, t1) = toks[0];
            assert(toks@[0].0 <= toks@[0].1);
            if word_is(&chars, t0, t1, "shape") {
                parse_shape(s, &chars, a, &toks)
            } else {
                match parse_dims(s, &chars, a, &toks) {
                    Ok((w, h)) => Ok(Commands::New(w, h)),
                    Err(e) => Err(e),
                }
            }
        } else if word_is(&chars, k0, k1, "resize") {
            match parse_dims(s, &chars, a, &toks) {
                Ok((w, h)) => Ok(Commands::Resize(w, h)),
                Err(e) => Err(e),
            }
        } else if word_is(&chars, k0, k1, "draw") {
            parse_draw(s, &chars, a, &toks)
        } else {
            Err(ParseError::InvalidCommand(input))
        }
    }
}

/// Whether `c` has the Unicode White_Space property.
pub open spec fn is_white_space(c: char) -> bool {
    let u = c as u32;
    ||| 0x09 <= u <= 0x0d
    ||| u == 0x20
    ||| u == 0x85
    ||| u == 0xa0
    ||| u == 0x1680
    ||| 0x2000 <= u <= 0x200a
    ||| u == 0x2028
    ||| u == 0x2029
    ||| u == 0x202f
    ||| u == 0x205f
    ||| u == 0x3000
}

/// `s` without its leading run of whitespace.
pub open spec fn strip_front(s: Seq<char>) -> Seq<char>
    decreases s.len(),
{
    if s.len() > 0 && is_white_space(s[0]) {
        strip_front(s.skip(1))
    } else {
        s
    }
}

/// `s` without its trailing run of whitespace.
pub open spec fn strip_back(s: Seq<char>) -> Seq<char>
    decreases s.len(),
{
    if s.len() > 0 && is_white_space(s.last()) {
        strip_back(s.drop_last())
    } else {
        s
    }
}

/// `s` without the whitespace at either end.
pub open spec fn trimmed_of(s: Seq<char>) -> Seq<char> {
    strip_back(strip_front(s))
}

/// Relies on str::trim: the slice without its leading and trailing characters
/// that have the Unicode White_Space property.
#[verifier::external_body]
fn trim_text(s: &str) -> (r: &str)
    ensures
        r@ == trimmed_of(s@),
{
    s.trim()
}

/// Parses a raw line of input, with the whitespace at its ends removed first.
pub fn command_from_input(line: String) -> (r: Result<Commands, ParseError>)
    ensures
        parsed_view(r) == parse_spec(trimmed_of(line@)),
{
    let t = trim_text(line.as_str());
    parse_to_command(String::from_str(t))
}

/// What follows the offending text in the message of each kind of error.
pub open spec fn message_tail(kind: ErrorKind) -> Seq<char> {
    match kind {
        ErrorKind::InvalidCommand => "\" is not a valid command.!"@,
        ErrorKind::TooManyArguments => "\", too many arguments!"@,
        ErrorKind::MissingArguments => "\", missing arguments!"@,
        ErrorKind::NotNumber => "\", not a valid number!"@,
        ErrorKind::NonPositiveInteger => "\", can't have numbers below 1!"@,
        ErrorKind::InvalidShapeType => "\" is not a valid shape type"@,
    }
}

fn tail_of(kind: ErrorKind) -> (r: &'static str)
    ensures
        r@ == message_tail(kind),
{
    match kind {
        ErrorKind::InvalidCommand => "\" is not a valid command.!",
        ErrorKind::TooManyArguments => "\", too many arguments!",
        ErrorKind::MissingArguments => "\", missing arguments!",
        ErrorKind::NotNumber => "\", not a valid number!",
        ErrorKind::NonPositiveInteger => "\", can't have numbers below 1!",
        ErrorKind::InvalidShapeType => "\" is not a valid shape type",
    }
}

impl ParseError {
    /// The offending text.
    pub fn text(&self) -> (r: &String)
        ensures
            r@ == self@.1,
    {
        match self {
            ParseError::InvalidCommand(t) => t,
            ParseError::TooManyArguments(t) => t,
            ParseError::MissingArguments(t) => t,
            ParseError::NotNumber(t) => t,
            ParseError::NonPositiveInteger(t) => t,
            ParseError::InvalidShapeType(t) => t,
        }
    }

    pub fn kind(&self) -> (r: ErrorKind)
        ensures
            r == self@.0,
    {
        match self {
            ParseError::InvalidCommand(_) => ErrorKind::InvalidCommand,
            ParseError::TooManyArguments(_) => ErrorKind::TooManyArguments,
            ParseError::MissingArguments(_) => ErrorKind::MissingArguments,
            ParseError::NotNumber(_) => ErrorKind::NotNumber,
            ParseError::NonPositiveInteger(_) => ErrorKind::NonPositiveInteger,
            ParseError::InvalidShapeType(_) => ErrorKind::InvalidShapeType,
        }
    }

    /// A one-line message for the user: the offending text in double quotes,
    /// then what is wrong with it.
    pub fn message(&self) -> (r: String)
        ensures
            r@ == "\""@ + self@.1 + message_tail(self@.0),
    {
        let mut out = String::from_str("\"");
        out.append(self.text().as_str());
        out.append(tail_of(self.kind()));
        out
    }
}

} // verus!
