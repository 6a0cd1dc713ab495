use vstd::prelude::*;
use vstd::string::StringExecFns;

verus! {

/// Where the input of a parse comes from.
pub enum Source {
    Stdin,
    File(String),
}

/// The digit characters, by value.
pub open spec fn digit_char(d: nat) -> char {
    seq!['0', '1', '2', '3', '4', '5', '6', '7', '8', '9'][d as int]
}

/// The decimal numeral of `n`, without leading zeros.
pub open spec fn decimal(n: nat) -> Seq<char>
    decreases n,
{
    if n < 10 {
        seq![digit_char(n)]
    } else {
        decimal(n / 10).push(digit_char(n % 10))
    }
}

impl Source {
    /// A file origin carries a path that is not empty.
    pub open spec fn wf(&self) -> bool {
        match self {
            Source::Stdin => true,
            Source::File(path) => path@.len() > 0,
        }
    }

    /// The text that names this origin in diagnostics.
    pub open spec fn descriptor(&self) -> Seq<char> {
        match self {
            Source::Stdin => "stdin"@,
            Source::File(path) => path@,
        }
    }

    /// A file origin for `path`.
    pub fn from_path(path: &str) -> (r: Self)
        requires
            path@.len() > 0,
        ensures
            r is File,
            r->File_0@ == path@,
            r.wf(),
    {
        Source::File(String::from_str(path))
    }

    /// The standard-input origin.
    pub fn stdin() -> (r: Self)
        ensures
            r == Source::Stdin,
            r.wf(),
    {
        Source::Stdin
    }

    /// The descriptor of this origin: `stdin`, or the file's path.
    pub fn as_str(&self) -> (r: &str)
        ensures
            r@ == self.descriptor(),
    {
        match self {
            Source::Stdin => "stdin",
            Source::File(path) => path.as_str(),
        }
    }

    /// The descriptor of this origin, as an owned string.
    pub fn to_string(&self) -> (r: String)
        ensures
            r@ == self.descriptor(),
    {
        String::from_str(self.as_str())
    }
}

/// A place in the input: its origin, and the line and column, both counted
/// from 1.
pub struct SourcePosition {
    pub source: Source,
    pub line: usize,
    pub column: usize,
}

impl SourcePosition {
    /// The rendering `origin:line:column` used by diagnostics.
    pub open spec fn rendered(&self) -> Seq<char> {
        self.source.descriptor() + seq![':'] + decimal(self.line as nat) + seq![':'] + decimal(
            self.column as nat,
        )
    }

    /// Renders this position as `origin:line:column`, each number in decimal.
    pub fn to_string(&self) -> (r: String)
        ensures
            r@ == self.rendered(),
    {
        let mut r = self.source.to_string();
        let colon = ":";
        proof {
            reveal_strlit(":");
        }
        r.append(colon);
        append_decimal(&mut r, self.line);
        r.append(colon);
        append_decimal(&mut r, self.column);
        r
    }
}

/// The one-character string of the digit `d`.
fn digit_str(d: usize) -> (r: &'static str)
    requires
        d < 10,
    ensures
        r@ == seq![digit_char(d as nat)],
{
    proof {
        reveal_strlit("0");
        reveal_strlit("1");
        reveal_strlit("2");
        reveal_strlit("3");
        reveal_strlit("4");
        reveal_strlit("5");
        reveal_strlit("6");
        reveal_strlit("7");
        reveal_strlit("8");
        reveal_strlit("9");
    }
    let r = if d == 0 {
        "0"
    } else if d == 1 {
        "1"
    } else if d == 2 {
        "2"
    } else if d == 3 {
        "3"
    } else if d == 4 {
        "4"
    } else if d == 5 {
        "5"
    } else if d == 6 {
        "6"
    } else if d == 7 {
        "7"
    } else if d == 8 {
        "8"
    } else {
        "9"
    };
    assert(r@ =~= seq![digit_char(d as nat)]);
    r
}

/// Appends the decimal numeral of `n` to `s`.
fn append_decimal(s: &mut String, n: usize)
    ensures
        final(s)@ == old(s)@ + decimal(n as nat),
    decreases n,
{
    if n >= 10 {
        append_decimal(s, n / 10);
    }
    s.append(digit_str(n % 10));
    assert(final(s)@ =~= old(s)@ + decimal(n as nat));
}

} // verus!
