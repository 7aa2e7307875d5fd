//! The two forms of name: a variable or field name, which may be qualified
//! by `self`, and a type name, which may be qualified by scopes.

use vstd::prelude::*;

verus! {

/// A reference to a variable, or to a field of the enclosing object where
/// `is_self` is set. Any string serves as the identifier.
#[derive(Debug)]
pub struct VName {
    pub is_self: bool,
    pub ident: String,
}

/// A name with the scopes that lead to it: `Sub(parent, ident)` stands for
/// `parent::ident`.
#[derive(Debug)]
pub enum QName {
    Name(String),
    Sub(Box<QName>, String),
}

impl VName {
    /// The canonical text: the identifier, after `self.` for a field.
    pub open spec fn text(&self) -> Seq<char> {
        if self.is_self {
            "self."@ + self.ident@
        } else {
            self.ident@
        }
    }

    /// Appends the canonical text to `out`.
    pub fn write_to(&self, out: &mut String)
        ensures
            final(out)@ == old(out)@ + self.text(),
    {
        let ghost start = out@;
        if self.is_self {
            out.append("self.");
        }
        out.append(self.ident.as_str());
        assert(out@ =~= start + self.text());
    }

    /// The canonical text as a string.
    pub fn to_string(&self) -> (s: String)
        ensures
            s@ == self.text(),
    {
        let mut s = String::new();
        self.write_to(&mut s);
        assert(s@ =~= self.text());
        s
    }
}

impl QName {
    /// The canonical text: the identifiers from the outermost scope inwards,
    /// with `::` between them.
    pub open spec fn text(&self) -> Seq<char>
        decreases self,
    {
        match self {
            QName::Name(ident) => ident@,
            QName::Sub(parent, ident) => parent.text() + "::"@ + ident@,
        }
    }

    /// Appends the canonical text to `out`.
    pub fn write_to(&self, out: &mut String)
        ensures
            final(out)@ == old(out)@ + self.text(),
        decreases self,
    {
        let ghost start = out@;
        match self {
            QName::Name(ident) => {
                out.append(ident.as_str());
            },
            QName::Sub(parent, ident) => {
                parent.write_to(out);
                out.append("::");
                out.append(ident.as_str());
            },
        }
        assert(out@ =~= start + self.text());
    }

    /// The canonical text as a string.
    pub fn to_string(&self) -> (s: String)
        ensures
            s@ == self.text(),
    {
        let mut s = String::new();
        self.write_to(&mut s);
        assert(s@ =~= self.text());
        s
    }
}

} // verus!
