//! The operators of the language. Each has one canonical spelling, and each
//! enumeration converts that spelling back into its value.

use vstd::prelude::*;

verus! {

/// A prefix operator.
#[derive(Debug, Clone, Copy, PartialEq, Eq, Structural)]
pub enum UnaryOp {
    Plus,
    Minus,
    Tilde,
}

/// An infix operator.
#[derive(Debug, Clone, Copy, PartialEq, Eq, Structural)]
pub enum BinaryOp {
    Plus,
    Minus,
    Star,
    Slash,
}

/// The two kinds of assignment.
#[derive(Debug, Clone, Copy, PartialEq, Eq, Structural)]
pub enum AssignOp {
    Blocking,
    NonBlocking,
}

impl UnaryOp {
    /// The canonical spelling: `+`, `-` or `~`.
    pub open spec fn spelling(self) -> Seq<char> {
        match self {
            UnaryOp::Plus => seq!['+'],
            UnaryOp::Minus => seq!['-'],
            UnaryOp::Tilde => seq!['~'],
        }
    }

    /// The operator that is spelled `s`, if `s` is exactly one of the
    /// canonical spellings.
    pub open spec fn from_spelling(s: Seq<char>) -> Option<UnaryOp> {
        if s == UnaryOp::Plus.spelling() {
            Some(UnaryOp::Plus)
        } else if s == UnaryOp::Minus.spelling() {
            Some(UnaryOp::Minus)
        } else if s == UnaryOp::Tilde.spelling() {
            Some(UnaryOp::Tilde)
        } else {
            None
        }
    }

    /// The canonical spelling as a string slice.
    pub fn as_str(&self) -> (s: &'static str)
        ensures
            s@ == self.spelling(),
            UnaryOp::from_spelling(s@) == Some(*self),
    {
        proof {
            self.lemma_round_trip();
            reveal_strlit("+");
            reveal_strlit("-");
            reveal_strlit("~");
        }
        let s = match self {
            UnaryOp::Plus => "+",
            UnaryOp::Minus => "-",
            UnaryOp::Tilde => "~",
        };
        assert(s@ =~= self.spelling());
        s
    }

    /// The canonical spelling as an owned string.
    pub fn to_string(&self) -> (s: String)
        ensures
            s@ == self.spelling(),
            UnaryOp::from_spelling(s@) == Some(*self),
    {
        self.as_str().to_owned()
    }

    /// Reads an operator from its spelling. Any string but the three
    /// canonical spellings gives `None`.
    pub fn parse(s: &str) -> (r: Option<UnaryOp>)
        ensures
            r == UnaryOp::from_spelling(s@),
    {
        if s.unicode_len() != 1 {
            return None;
        }
        let c = s.get_char(0);
        assert(s@ =~= seq![c]);
        if c == '+' {
            Some(UnaryOp::Plus)
        } else if c == '-' {
            Some(UnaryOp::Minus)
        } else if c == '~' {
            Some(UnaryOp::Tilde)
        } else {
            None
        }
    }

    /// Converts a spelling that is known to be canonical, as a lexer's
    /// operator token is. The caller answers for that: to test a string of
    /// unknown origin there is [`UnaryOp::parse`]. Called with any other string
    /// by code that Verus has not checked, this stops with a panic and gives
    /// back no operator.
    pub fn from(s: &str) -> (op: UnaryOp)
        requires
            UnaryOp::from_spelling(s@) is Some,
        ensures
            UnaryOp::from_spelling(s@) == Some(op),
            op.spelling() == s@,
    {
        match UnaryOp::parse(s) {
            Some(op) => op,
            None => unreached(),
        }
    }

    /// Reading the spelling of an operator gives that operator back.
    pub proof fn lemma_round_trip(self)
        ensures
            UnaryOp::from_spelling(self.spelling()) == Some(self),
    {
        assert(seq!['+'][0] != seq!['-'][0]);
        assert(seq!['+'][0] != seq!['~'][0]);
        assert(seq!['-'][0] != seq!['~'][0]);
    }

    /// A string is read as an operator exactly if it is that operator's
    /// spelling, and as none exactly if it is the spelling of none.
    pub proof fn lemma_reads_only_spellings(s: Seq<char>)
        ensures
            forall|op: UnaryOp| UnaryOp::from_spelling(s) == Some(op) <==> s == op.spelling(),
            UnaryOp::from_spelling(s) is None <==> forall|op: UnaryOp|
                s != #[trigger] op.spelling(),
    {
        assert forall|op: UnaryOp| UnaryOp::from_spelling(s) == Some(op) <==> s
            == op.spelling() by {
            op.lemma_round_trip();
        }
        if UnaryOp::from_spelling(s) is Some {
            assert(s == UnaryOp::from_spelling(s)->0.spelling());
        }
    }
}

impl BinaryOp {
    /// The canonical spelling: `+`, `-`, `*` or `/`.
    pub open spec fn spelling(self) -> Seq<char> {
        match self {
            BinaryOp::Plus => seq!['+'],
            BinaryOp::Minus => seq!['-'],
            BinaryOp::Star => seq!['*'],
            BinaryOp::Slash => seq!['/'],
        }
    }

    /// The operator that is spelled `s`, if `s` is exactly one of the
    /// canonical spellings.
    pub open spec fn from_spelling(s: Seq<char>) -> Option<BinaryOp> {
        if s == BinaryOp::Plus.spelling() {
            Some(BinaryOp::Plus)
        } else if s == BinaryOp::Minus.spelling() {
            Some(BinaryOp::Minus)
        } else if s == BinaryOp::Star.spelling() {
            Some(BinaryOp::Star)
        } else if s == BinaryOp::Slash.spelling() {
            Some(BinaryOp::Slash)
        } else {
            None
        }
    }

    /// The canonical spelling as a string slice.
    pub fn as_str(&self) -> (s: &'static str)
        ensures
            s@ == self.spelling(),
            BinaryOp::from_spelling(s@) == Some(*self),
    {
        proof {
            self.lemma_round_trip();
            reveal_strlit("+");
            reveal_strlit("-");
            reveal_strlit("*");
            reveal_strlit("/");
        }
        let s = match self {
            BinaryOp::Plus => "+",
            BinaryOp::Minus => "-",
            BinaryOp::Star => "*",
            BinaryOp::Slash => "/",
        };
        assert(s@ =~= self.spelling());
        s
    }

    /// The canonical spelling as an owned string.
    pub fn to_string(&self) -> (s: String)
        ensures
            s@ == self.spelling(),
            BinaryOp::from_spelling(s@) == Some(*self),
    {
        self.as_str().to_owned()
    }

    /// Reads an operator from its spelling. Any string but the four
    /// canonical spellings gives `None`.
    pub fn parse(s: &str) -> (r: Option<BinaryOp>)
        ensures
            r == BinaryOp::from_spelling(s@),
    {
        if s.unicode_len() != 1 {
            return None;
        }
        let c = s.get_char(0);
        assert(s@ =~= seq![c]);
        if c == '+' {
            Some(BinaryOp::Plus)
        } else if c == '-' {
            Some(BinaryOp::Minus)
        } else if c == '*' {
            Some(BinaryOp::Star)
        } else if c == '/' {
            Some(BinaryOp::Slash)
        } else {
            None
        }
    }

    /// Converts a spelling that is known to be canonical, as a lexer's
    /// operator token is. The caller answers for that: to test a string of
    /// unknown origin there is [`BinaryOp::parse`]. Called with any other string
    /// by code that Verus has not checked, this stops with a panic and gives
    /// back no operator.
    pub fn from(s: &str) -> (op: BinaryOp)
        requires
            BinaryOp::from_spelling(s@) is Some,
        ensures
            BinaryOp::from_spelling(s@) == Some(op),
            op.spelling() == s@,
    {
        match BinaryOp::parse(s) {
            Some(op) => op,
            None => unreached(),
        }
    }

    /// Reading the spelling of an operator gives that operator back.
    pub proof fn lemma_round_trip(self)
        ensures
            BinaryOp::from_spelling(self.spelling()) == Some(self),
    {
        assert(seq!['+'][0] != seq!['-'][0]);
        assert(seq!['+'][0] != seq!['*'][0]);
        assert(seq!['+'][0] != seq!['/'][0]);
        assert(seq!['-'][0] != seq!['*'][0]);
        assert(seq!['-'][0] != seq!['/'][0]);
        assert(seq!['*'][0] != seq!['/'][0]);
    }

    /// A string is read as an operator exactly if it is that operator's
    /// spelling, and as none exactly if it is the spelling of none.
    pub proof fn lemma_reads_only_spellings(s: Seq<char>)
        ensures
            forall|op: BinaryOp| BinaryOp::from_spelling(s) == Some(op) <==> s == op.spelling(),
            BinaryOp::from_spelling(s) is None <==> forall|op: BinaryOp|
                s != #[trigger] op.spelling(),
    {
        assert forall|op: BinaryOp| BinaryOp::from_spelling(s) == Some(op) <==> s
            == op.spelling() by {
            op.lemma_round_trip();
        }
        if BinaryOp::from_spelling(s) is Some {
            assert(s == BinaryOp::from_spelling(s)->0.spelling());
        }
    }
}

impl AssignOp {
    /// The canonical spelling: `=` for a blocking assignment, `<=` for a
    /// non-blocking one.
    pub open spec fn spelling(self) -> Seq<char> {
        match self {
            AssignOp::Blocking => seq!['='],
            AssignOp::NonBlocking => seq!['<', '='],
        }
    }

    /// The operator that is spelled `s`, if `s` is exactly one of the
    /// canonical spellings.
    pub open spec fn from_spelling(s: Seq<char>) -> Option<AssignOp> {
        if s == AssignOp::Blocking.spelling() {
            Some(AssignOp::Blocking)
        } else if s == AssignOp::NonBlocking.spelling() {
            Some(AssignOp::NonBlocking)
        } else {
            None
        }
    }

    /// The canonical spelling as a string slice.
    pub fn as_str(&self) -> (s: &'static str)
        ensures
            s@ == self.spelling(),
            AssignOp::from_spelling(s@) == Some(*self),
    {
        proof {
            self.lemma_round_trip();
            reveal_strlit("=");
            reveal_strlit("<=");
        }
        let s = match self {
            AssignOp::Blocking => "=",
            AssignOp::NonBlocking => "<=",
        };
        assert(s@ =~= self.spelling());
        s
    }

    /// The canonical spelling as an owned string.
    pub fn to_string(&self) -> (s: String)
        ensures
            s@ == self.spelling(),
            AssignOp::from_spelling(s@) == Some(*self),
    {
        self.as_str().to_owned()
    }

    /// Reads an operator from its spelling. Any string but the two canonical
    /// spellings gives `None`.
    pub fn parse(s: &str) -> (r: Option<AssignOp>)
        ensures
            r == AssignOp::from_spelling(s@),
    {
        let len = s.unicode_len();
        if len == 1 && s.get_char(0) == '=' {
            assert(s@ =~= seq!['=']);
            Some(AssignOp::Blocking)
        } else if len == 2 && s.get_char(0) == '<' && s.get_char(1) == '=' {
            assert(s@ =~= seq!['<', '=']);
            Some(AssignOp::NonBlocking)
        } else {
            assert(seq!['='][0] == '=');
            assert(seq!['<', '='][0] == '<' && seq!['<', '='][1] == '=');
            None
        }
    }

    /// Converts a spelling that is known to be canonical, as a lexer's
    /// operator token is. The caller answers for that: to test a string of
    /// unknown origin there is [`AssignOp::parse`]. Called with any other string
    /// by code that Verus has not checked, this stops with a panic and gives
    /// back no operator.
    pub fn from(s: &str) -> (op: AssignOp)
        requires
            AssignOp::from_spelling(s@) is Some,
        ensures
            AssignOp::from_spelling(s@) == Some(op),
            op.spelling() == s@,
    {
        match AssignOp::parse(s) {
            Some(op) => op,
            None => unreached(),
        }
    }

    /// Reading the spelling of an operator gives that operator back.
    pub proof fn lemma_round_trip(self)
        ensures
            AssignOp::from_spelling(self.spelling()) == Some(self),
    {
        assert(seq!['='].len() != seq!['<', '='].len());
    }

    /// A string is read as an operator exactly if it is that operator's
    /// spelling, and as none exactly if it is the spelling of none.
    pub proof fn lemma_reads_only_spellings(s: Seq<char>)
        ensures
            forall|op: AssignOp| AssignOp::from_spelling(s) == Some(op) <==> s == op.spelling(),
            AssignOp::from_spelling(s) is None <==> forall|op: AssignOp|
                s != #[trigger] op.spelling(),
    {
        assert forall|op: AssignOp| AssignOp::from_spelling(s) == Some(op) <==> s
            == op.spelling() by {
            op.lemma_round_trip();
        }
        if AssignOp::from_spelling(s) is Some {
            assert(s == AssignOp::from_spelling(s)->0.spelling());
        }
    }
}

} // verus!
