//! The alphabet of the grammars: fixed tokens, character classes, and the
//! things a parse error can name as expected.
use vstd::prelude::*;
use vstd::string::*;

verus! {

/// A fixed, case-sensitive token.
#[derive(Clone, Copy, Debug, PartialEq, Eq, Structural)]
pub enum Literal {
    /// `[`
    OpenBracket,
    /// `]`
    CloseBracket,
    /// `,`
    Comma,
    /// `SELECT`
    Select,
    /// `FROM`
    From,
    /// `as`
    As,
}

impl Literal {
    /// The bytes of the token.
    pub open spec fn bytes(self) -> Seq<u8> {
        match self {
            Literal::OpenBracket => seq!['[' as u8],
            Literal::CloseBracket => seq![']' as u8],
            Literal::Comma => seq![',' as u8],
            Literal::Select => seq![
                'S' as u8,
                'E' as u8,
                'L' as u8,
                'E' as u8,
                'C' as u8,
                'T' as u8,
            ],
            Literal::From => seq!['F' as u8, 'R' as u8, 'O' as u8, 'M' as u8],
            Literal::As => seq!['a' as u8, 's' as u8],
        }
    }

    /// Every byte of a token is an ASCII character.
    pub proof fn lemma_bytes_are_ascii(self)
        ensures
            forall|i: int| 0 <= i < self.bytes().len() ==> #[trigger] self.bytes()[i] < 0x80,
    {
    }

    /// The token as text.
    pub fn text(self) -> (r: &'static str)
        ensures
            r.spec_bytes() == self.bytes(),
            1 <= self.bytes().len() <= 6,
    {
        broadcast use is_ascii_spec_bytes;

        match self {
            Literal::OpenBracket => {
                let s = "[";
                proof {
                    reveal_strlit("[");
                    assert(is_ascii(s));
                    assert(s.spec_bytes() =~= self.bytes());
                }
                s
            },
            Literal::CloseBracket => {
                let s = "]";
                proof {
                    reveal_strlit("]");
                    assert(is_ascii(s));
                    assert(s.spec_bytes() =~= self.bytes());
                }
                s
            },
            Literal::Comma => {
                let s = ",";
                proof {
                    reveal_strlit(",");
                    assert(is_ascii(s));
                    assert(s.spec_bytes() =~= self.bytes());
                }
                s
            },
            Literal::Select => {
                let s = "SELECT";
                proof {
                    reveal_strlit("SELECT");
                    assert(is_ascii(s));
                    assert(s.spec_bytes() =~= self.bytes());
                }
                s
            },
            Literal::From => {
                let s = "FROM";
                proof {
                    reveal_strlit("FROM");
                    assert(is_ascii(s));
                    assert(s.spec_bytes() =~= self.bytes());
                }
                s
            },
            Literal::As => {
                let s = "as";
                proof {
                    reveal_strlit("as");
                    assert(is_ascii(s));
                    assert(s.spec_bytes() =~= self.bytes());
                }
                s
            },
        }
    }
}

/// A set of single-byte characters.
#[derive(Clone, Copy, Debug, PartialEq, Eq, Structural)]
pub enum CharClass {
    /// `'0'..='9'`
    Digit,
    /// `'a'..='z'`, `'A'..='Z'` or `'_'`
    Letter,
    /// `'*'`
    Star,
    /// space, newline or tab
    Space,
}

impl CharClass {
    /// Whether the byte belongs to the class.
    pub open spec fn contains(self, b: u8) -> bool {
        match self {
            CharClass::Digit => '0' as u8 <= b <= '9' as u8,
            CharClass::Letter => ('a' as u8 <= b <= 'z' as u8) || ('A' as u8 <= b <= 'Z' as u8)
                || b == '_' as u8,
            CharClass::Star => b == '*' as u8,
            CharClass::Space => b == ' ' as u8 || b == '\n' as u8 || b == '\t' as u8,
        }
    }

    /// Every member of every class is an ASCII character.
    pub proof fn lemma_members_are_ascii(self, b: u8)
        requires
            self.contains(b),
        ensures
            b < 0x80,
    {
    }

    /// Tests whether the byte belongs to the class.
    pub fn matches(self, b: u8) -> (r: bool)
        ensures
            r == self.contains(b),
    {
        match self {
            CharClass::Digit => 0x30 <= b && b <= 0x39,
            CharClass::Letter => (0x61 <= b && b <= 0x7a) || (0x41 <= b && b <= 0x5a) || b == 0x5f,
            CharClass::Star => b == 0x2a,
            CharClass::Space => b == 0x20 || b == 0x0a || b == 0x09,
        }
    }
}

/// What a rule looked for at the offset where it failed.
#[derive(Clone, Copy, Debug, PartialEq, Eq, Structural)]
pub enum Expected {
    /// A fixed token.
    Literal(Literal),
    /// One character of a class.
    Class(CharClass),
    /// One or more characters of [`CharClass::Space`].
    Whitespace,
    /// A run of digits whose value fits in 32 bits.
    U32,
}

/// The number of distinct [`Expected`] values.
pub const EXPECTED_KINDS: usize = 12;

impl Expected {
    /// The place of the value among all values in the order of their
    /// labels: a distinct index below [`EXPECTED_KINDS`] for each.
    pub open spec fn rank(self) -> int {
        match self {
            Expected::Literal(Literal::Comma) => 0,
            Expected::Literal(Literal::From) => 1,
            Expected::Literal(Literal::Select) => 2,
            Expected::Literal(Literal::OpenBracket) => 3,
            Expected::Literal(Literal::CloseBracket) => 4,
            Expected::Literal(Literal::As) => 5,
            Expected::Class(CharClass::Space) => 6,
            Expected::Class(CharClass::Star) => 7,
            Expected::Class(CharClass::Digit) => 8,
            Expected::Class(CharClass::Letter) => 9,
            Expected::U32 => 10,
            Expected::Whitespace => 11,
        }
    }

    /// The value with the given rank.
    pub open spec fn of_rank(i: int) -> Expected {
        if i == 0 {
            Expected::Literal(Literal::Comma)
        } else if i == 1 {
            Expected::Literal(Literal::From)
        } else if i == 2 {
            Expected::Literal(Literal::Select)
        } else if i == 3 {
            Expected::Literal(Literal::OpenBracket)
        } else if i == 4 {
            Expected::Literal(Literal::CloseBracket)
        } else if i == 5 {
            Expected::Literal(Literal::As)
        } else if i == 6 {
            Expected::Class(CharClass::Space)
        } else if i == 7 {
            Expected::Class(CharClass::Star)
        } else if i == 8 {
            Expected::Class(CharClass::Digit)
        } else if i == 9 {
            Expected::Class(CharClass::Letter)
        } else if i == 10 {
            Expected::U32
        } else {
            Expected::Whitespace
        }
    }

    /// `rank` and `of_rank` are inverse to each other.
    pub proof fn lemma_rank_bijective()
        ensures
            forall|e: Expected| 0 <= #[trigger] e.rank() < EXPECTED_KINDS,
            forall|e: Expected| Expected::of_rank(#[trigger] e.rank()) == e,
            forall|i: int|
                0 <= i < EXPECTED_KINDS ==> (#[trigger] Expected::of_rank(i)).rank() == i,
    {
    }

    /// The rank as a machine integer.
    pub fn index(self) -> (r: usize)
        ensures
            r == self.rank(),
            r < EXPECTED_KINDS,
    {
        match self {
            Expected::Literal(Literal::Comma) => 0,
            Expected::Literal(Literal::From) => 1,
            Expected::Literal(Literal::Select) => 2,
            Expected::Literal(Literal::OpenBracket) => 3,
            Expected::Literal(Literal::CloseBracket) => 4,
            Expected::Literal(Literal::As) => 5,
            Expected::Class(CharClass::Space) => 6,
            Expected::Class(CharClass::Star) => 7,
            Expected::Class(CharClass::Digit) => 8,
            Expected::Class(CharClass::Letter) => 9,
            Expected::U32 => 10,
            Expected::Whitespace => 11,
        }
    }

    /// The value with the given index.
    pub fn from_index(i: usize) -> (r: Expected)
        requires
            i < EXPECTED_KINDS,
        ensures
            r == Expected::of_rank(i as int),
    {
        if i == 0 {
            Expected::Literal(Literal::Comma)
        } else if i == 1 {
            Expected::Literal(Literal::From)
        } else if i == 2 {
            Expected::Literal(Literal::Select)
        } else if i == 3 {
            Expected::Literal(Literal::OpenBracket)
        } else if i == 4 {
            Expected::Literal(Literal::CloseBracket)
        } else if i == 5 {
            Expected::Literal(Literal::As)
        } else if i == 6 {
            Expected::Class(CharClass::Space)
        } else if i == 7 {
            Expected::Class(CharClass::Star)
        } else if i == 8 {
            Expected::Class(CharClass::Digit)
        } else if i == 9 {
            Expected::Class(CharClass::Letter)
        } else if i == 10 {
            Expected::U32
        } else {
            Expected::Whitespace
        }
    }

    /// How the value is written in an error message: a token in double
    /// quotes, a class in square brackets, a rule by its name.
    pub open spec fn label(self) -> Seq<char> {
        match self {
            Expected::Literal(Literal::Comma) => "\",\""@,
            Expected::Literal(Literal::From) => "\"FROM\""@,
            Expected::Literal(Literal::Select) => "\"SELECT\""@,
            Expected::Literal(Literal::OpenBracket) => "\"[\""@,
            Expected::Literal(Literal::CloseBracket) => "\"]\""@,
            Expected::Literal(Literal::As) => "\"as\""@,
            Expected::Class(CharClass::Space) => "[' ' | '\\n' | '\\t']"@,
            Expected::Class(CharClass::Star) => "['*']"@,
            Expected::Class(CharClass::Digit) => "['0'..='9']"@,
            Expected::Class(CharClass::Letter) => "['a'..='z' | 'A'..='Z' | '_']"@,
            Expected::U32 => "u32"@,
            Expected::Whitespace => "whitespace"@,
        }
    }

    /// The label as text.
    pub fn describe(self) -> (r: &'static str)
        ensures
            r@ == self.label(),
    {
        match self {
            Expected::Literal(Literal::Comma) => "\",\"",
            Expected::Literal(Literal::From) => "\"FROM\"",
            Expected::Literal(Literal::Select) => "\"SELECT\"",
            Expected::Literal(Literal::OpenBracket) => "\"[\"",
            Expected::Literal(Literal::CloseBracket) => "\"]\"",
            Expected::Literal(Literal::As) => "\"as\"",
            Expected::Class(CharClass::Space) => "[' ' | '\\n' | '\\t']",
            Expected::Class(CharClass::Star) => "['*']",
            Expected::Class(CharClass::Digit) => "['0'..='9']",
            Expected::Class(CharClass::Letter) => "['a'..='z' | 'A'..='Z' | '_']",
            Expected::U32 => "u32",
            Expected::Whitespace => "whitespace",
        }
    }
}

} // verus!
