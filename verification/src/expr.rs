//! Expressions and their canonical text.

use crate::names::{QName, VName};
use crate::ops::{BinaryOp, UnaryOp};
use crate::decimal::{decimal, push_decimal};
use crate::text::{join, lemma_join_ends, lemma_suffix_after, lemma_suffix_before};
use vstd::prelude::*;

verus! {

/// A subscript: one position, or a range given by its two bounds. The
/// bounds are kept as they are given; nothing orders them.
#[derive(Debug)]
pub enum Index {
    Single(i32),
    Range(i32, i32),
}

/// An expression. No form adds parentheses of its own accord: where the
/// text needs them, the tree holds a `Sub`.
#[derive(Debug)]
#[allow(inconsistent_fields)]
pub enum Expression {
    /// An integer literal.
    Int(i64),
    /// A variable or field.
    VName(VName),
    /// A call of a function with its arguments.
    Call(VName, Vec<Expression>),
    /// An array given by its elements.
    Array(Vec<Expression>),
    /// A record given by its type and its fields. A field without a value
    /// takes the value of the binding that has its name.
    Constructor(QName, Vec<(String, Option<Expression>)>),
    /// An expression in parentheses.
    Sub(Box<Expression>),
    /// A prefix operator and its operand.
    Unary { op: UnaryOp, expr: Box<Expression> },
    /// An infix operator and its two operands.
    Binary { lhs: Box<Expression>, op: BinaryOp, rhs: Box<Expression> },
    /// A subscripted expression.
    Index { base: Box<Expression>, index: Index },
}

impl Index {
    /// The canonical text: the position, or the two bounds with `..`
    /// between them.
    pub open spec fn text(&self) -> Seq<char> {
        match self {
            Index::Single(at) => decimal(*at as int),
            Index::Range(low, high) => decimal(*low as int) + ".."@ + decimal(*high as int),
        }
    }

    /// Appends the canonical text to `out`.
    pub fn write_to(&self, out: &mut String)
        ensures
            final(out)@ == old(out)@ + self.text(),
    {
        let ghost start = out@;
        match self {
            Index::Single(at) => {
                push_decimal(*at as i64, out);
            },
            Index::Range(low, high) => {
                push_decimal(*low as i64, out);
                out.append("..");
                push_decimal(*high as i64, out);
            },
        }
        assert(out@ =~= start + self.text());
    }

    /// The canonical text as a string.
    pub fn to_string(&self) -> (s: String)
        ensures
            s@ == self.text(),
    {
        let mut s = String::new();
        self.write_to(&mut s);
        assert(s@ =~= self.text());
        s
    }
}

impl Expression {
    /// The canonical text of the expression.
    pub open spec fn text(&self) -> Seq<char>
        decreases self,
    {
        match self {
            Expression::Int(value) => decimal(*value as int),
            Expression::VName(name) => name.text(),
            Expression::Call(callee, args) => callee.text() + "("@ + join(
                Expression::texts(args@),
                ", "@,
            ) + ")"@,
            Expression::Array(elements) => "["@ + join(Expression::texts(elements@), ", "@) + "]"@,
            Expression::Constructor(name, fields) => if fields@.len() == 0 {
                name.text() + " {}"@
            } else {
                name.text() + " {\n"@ + Expression::field_lines(fields@).flatten() + "}"@
            },
            Expression::Sub(inner) => "("@ + inner.text() + ")"@,
            Expression::Unary { op, expr } => op.spelling() + expr.text(),
            Expression::Binary { lhs, op, rhs } => lhs.text() + " "@ + op.spelling() + " "@
                + rhs.text(),
            Expression::Index { base, index } => base.text() + "["@ + index.text() + "]"@,
        }
    }

    /// The canonical texts of the expressions of a list, in order.
    pub open spec fn texts(items: Seq<Expression>) -> Seq<Seq<char>>
        decreases items,
    {
        Seq::new(
            items.len(),
            |i: int|
                if 0 <= i < items.len() {
                    items[i].text()
                } else {
                    Seq::empty()
                },
        )
    }

    /// The line of one field of a constructor: a tab, the field's name, its
    /// value after `: ` if it has one, a comma and a newline.
    pub open spec fn field_line(field: (String, Option<Expression>)) -> Seq<char>
        decreases field,
    {
        match field.1 {
            Some(value) => "\t"@ + field.0@ + ": "@ + value.text() + ",\n"@,
            None => "\t"@ + field.0@ + ",\n"@,
        }
    }

    /// The lines of the fields of a constructor, in order.
    pub open spec fn field_lines(fields: Seq<(String, Option<Expression>)>) -> Seq<Seq<char>>
        decreases fields,
    {
        Seq::new(
            fields.len(),
            |i: int|
                if 0 <= i < fields.len() {
                    Expression::field_line(fields[i])
                } else {
                    Seq::empty()
                },
        )
    }

    /// Appends the canonical text to `out`.
    pub fn write_to(&self, out: &mut String)
        ensures
            final(out)@ == old(out)@ + self.text(),
        decreases self,
    {
        let ghost start = out@;
        match self {
            Expression::Int(value) => {
                push_decimal(*value, out);
            },
            Expression::VName(name) => {
                name.write_to(out);
            },
            Expression::Call(callee, args) => {
                callee.write_to(out);
                out.append("(");
                Expression::write_list(args, out);
                out.append(")");
            },
            Expression::Array(elements) => {
                out.append("[");
                Expression::write_list(elements, out);
                out.append("]");
            },
            Expression::Constructor(name, fields) => {
                name.write_to(out);
                if fields.len() == 0 {
                    out.append(" {}");
                } else {
                    out.append(" {\n");
                    Expression::write_fields(fields, out);
                    out.append("}");
                }
            },
            Expression::Sub(inner) => {
                out.append("(");
                inner.write_to(out);
                out.append(")");
            },
            Expression::Unary { op, expr } => {
                out.append(op.as_str());
                expr.write_to(out);
            },
            Expression::Binary { lhs, op, rhs } => {
                lhs.write_to(out);
                out.append(" ");
                out.append(op.as_str());
                out.append(" ");
                rhs.write_to(out);
            },
            Expression::Index { base, index } => {
                base.write_to(out);
                out.append("[");
                index.write_to(out);
                out.append("]");
            },
        }
        assert(out@ =~= start + self.text());
    }

    /// Appends the texts of `items` to `out`, with `, ` between each two.
    fn write_list(items: &Vec<Expression>, out: &mut String)
        ensures
            final(out)@ == old(out)@ + join(Expression::texts(items@), ", "@),
        decreases items,
    {
        let ghost start = out@;
        let ghost parts = Expression::texts(items@);
        let mut i: usize = 0;
        assert(out@ =~= start + join(parts.take(0), ", "@));
        while i < items.len()
            invariant
                i <= items.len(),
                parts == Expression::texts(items@),
                out@ == start + join(parts.take(i as int), ", "@),
            decreases items.len() - i,
        {
            if i > 0 {
                out.append(", ");
            }
            items[i].write_to(out);
            proof {
                let grown = parts.take(i + 1);
                assert(grown.drop_last() =~= parts.take(i as int));
                assert(grown.last() == items@[i as int].text());
                assert(out@ =~= start + join(grown, ", "@));
            }
            i += 1;
        }
        assert(parts.take(i as int) =~= parts);
    }

    /// Appends the lines of `fields` to `out`.
    fn write_fields(fields: &Vec<(String, Option<Expression>)>, out: &mut String)
        ensures
            final(out)@ == old(out)@ + Expression::field_lines(fields@).flatten(),
        decreases fields,
    {
        let ghost start = out@;
        let ghost lines = Expression::field_lines(fields@);
        let mut i: usize = 0;
        assert(lines.take(0) =~= Seq::empty());
        assert(out@ =~= start + lines.take(0).flatten());
        while i < fields.len()
            invariant
                i <= fields.len(),
                lines == Expression::field_lines(fields@),
                out@ == start + lines.take(i as int).flatten(),
            decreases fields.len() - i,
        {
            let ghost before = out@;
            let field = &fields[i];
            out.append("\t");
            out.append(field.0.as_str());
            match &field.1 {
                Some(value) => {
                    out.append(": ");
                    value.write_to(out);
                },
                None => {},
            }
            out.append(",\n");
            proof {
                let line = Expression::field_line(fields@[i as int]);
                assert(out@ =~= before + line);
                assert(lines[i as int] == line);
                assert(lines.take(i + 1) =~= lines.take(i as int).push(line));
                lines.take(i as int).lemma_flatten_push(line);
                assert(out@ =~= start + lines.take(i + 1).flatten());
            }
            i += 1;
        }
        assert(lines.take(i as int) =~= lines);
    }

    /// The canonical text as a string.
    pub fn to_string(&self) -> (s: String)
        ensures
            s@ == self.text(),
    {
        let mut s = String::new();
        self.write_to(&mut s);
        assert(s@ =~= self.text());
        s
    }

    /// A call without arguments is the callee and a pair of parentheses with
    /// nothing between them.
    pub proof fn lemma_empty_call(callee: VName, args: Vec<Expression>)
        requires
            args@.len() == 0,
        ensures
            Expression::Call(callee, args).text() == callee.text() + "()"@,
    {
        reveal_strlit("(");
        reveal_strlit(")");
        reveal_strlit("()");
        assert(Expression::texts(args@) =~= Seq::empty());
        assert(Expression::Call(callee, args).text() =~= callee.text() + "()"@);
    }

    /// An array without elements is a pair of brackets with nothing between
    /// them.
    pub proof fn lemma_empty_array(elements: Vec<Expression>)
        requires
            elements@.len() == 0,
        ensures
            Expression::Array(elements).text() == "[]"@,
    {
        reveal_strlit("[");
        reveal_strlit("]");
        reveal_strlit("[]");
        assert(Expression::texts(elements@) =~= Seq::empty());
        assert(Expression::Array(elements).text() =~= "[]"@);
    }

    /// A constructor without fields is the type's name, a space and a pair of
    /// braces with nothing between them.
    pub proof fn lemma_empty_constructor(name: QName, fields: Vec<(String, Option<Expression>)>)
        requires
            fields@.len() == 0,
        ensures
            Expression::Constructor(name, fields).text() == name.text() + " {}"@,
    {
    }

    /// In a list of expressions the separator stands between two items and
    /// nowhere else: a list of one item is that item, and a longer list is
    /// the list without its last item, the separator, and the last item.
    pub proof fn lemma_list_separators(items: Seq<Expression>)
        requires
            items.len() >= 1,
        ensures
            items.len() == 1 ==> join(Expression::texts(items), ", "@) == items[0].text(),
            items.len() > 1 ==> join(Expression::texts(items), ", "@) == join(
                Expression::texts(items.drop_last()),
                ", "@,
            ) + ", "@ + items.last().text(),
    {
        assert(Expression::texts(items).drop_last() =~= Expression::texts(items.drop_last()));
    }

    /// An array with elements opens with its first element and closes right
    /// after its last: no separator follows the last element.
    pub proof fn lemma_array_ends(elements: Vec<Expression>)
        requires
            elements@.len() >= 1,
        ensures
            ("["@ + elements@[0].text()).is_prefix_of(Expression::Array(elements).text()),
            (elements@.last().text() + "]"@).is_suffix_of(Expression::Array(elements).text()),
    {
        let parts = Expression::texts(elements@);
        let list = join(parts, ", "@);
        lemma_join_ends(parts, ", "@);
        let whole = Expression::Array(elements).text();
        let first = elements@[0].text();
        let last = elements@.last().text();
        assert(parts[0] == first);
        assert(parts.last() == last);
        assert(whole =~= "["@ + list + "]"@);
        assert(("["@ + first) =~= whole.subrange(0, ("["@ + first).len() as int));
        assert((last + "]"@) =~= whole.subrange(
            whole.len() - (last + "]"@).len(),
            whole.len() as int,
        ));
    }

    /// The line of a field ends in a comma and a newline, whether or not the
    /// field has a value.
    pub proof fn lemma_field_line_ends(field: (String, Option<Expression>))
        ensures
            ",\n"@.is_suffix_of(Expression::field_line(field)),
    {
        reveal_strlit(",\n");
        let line = Expression::field_line(field);
        let comma = ",\n"@;
        match field.1 {
            Some(value) => {
                let head = "\t"@ + field.0@ + ": "@ + value.text();
                assert(line == head + comma);
                assert(comma =~= (head + comma).subrange(head.len() as int, line.len() as int));
            },
            None => {
                let head = "\t"@ + field.0@;
                assert(line == head + comma);
                assert(comma =~= (head + comma).subrange(head.len() as int, line.len() as int));
            },
        }
    }

    /// Every field of a constructor has a comma after it, the last one too:
    /// each field's line ends in a comma and a newline, and the closing
    /// brace comes right after the last such line.
    pub proof fn lemma_fields_end_with_comma(
        name: QName,
        fields: Vec<(String, Option<Expression>)>,
    )
        requires
            fields@.len() >= 1,
        ensures
            forall|i: int|
                0 <= i < fields@.len() ==> ",\n"@.is_suffix_of(
                    #[trigger] Expression::field_lines(fields@)[i],
                ),
            ",\n}"@.is_suffix_of(Expression::Constructor(name, fields).text()),
    {
        let lines = Expression::field_lines(fields@);
        assert forall|i: int| 0 <= i < fields@.len() implies ",\n"@.is_suffix_of(
            #[trigger] lines[i],
        ) by {
            Expression::lemma_field_line_ends(fields@[i]);
        }
        let last = lines.last();
        let head = name.text() + " {\n"@ + lines.drop_last().flatten();
        assert(Expression::Constructor(name, fields).text() == head + last + "}"@) by {
            assert(lines =~= lines.drop_last().push(last));
            lines.drop_last().lemma_flatten_push(last);
            assert(name.text() + " {\n"@ + (lines.drop_last().flatten() + last) =~= head + last);
        }
        lemma_suffix_after(head, last, ",\n"@);
        lemma_suffix_before(head + last, ",\n"@, "}"@);
        assert(",\n}"@ =~= ",\n"@ + "}"@) by {
            reveal_strlit(",\n");
            reveal_strlit("}");
            reveal_strlit(",\n}");
        }
    }
}

} // verus!
