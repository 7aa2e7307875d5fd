//! Statements and blocks, and their canonical text.

use crate::expr::Expression;
use crate::names::VName;
use crate::ops::AssignOp;
use crate::indent::{
    indent, lemma_indent_concat, lemma_indent_nested, lemma_indent_single_line, newline_free,
    push_indented,
};
use vstd::prelude::*;

verus! {

/// A sequence of statements between braces. It may be empty.
#[derive(Debug)]
pub struct BlockStmt(pub Vec<Statement>);

/// A statement.
#[derive(Debug)]
pub enum Statement {
    /// A conditional, with or without an `else` branch.
    If { cond: Expression, true_case: BlockStmt, false_case: Option<BlockStmt> },
    /// An assignment to a variable or field.
    Assign { left: VName, op: AssignOp, right: Expression },
    /// A block that stands as a statement.
    Block(BlockStmt),
}

impl BlockStmt {
    /// The canonical text. The empty block is `{}`. Any other block is an
    /// opening brace on a line of its own, then each statement's text with
    /// every line of it indented by one tab, then the closing brace on the
    /// line after the last statement.
    pub open spec fn text(&self) -> Seq<char>
        decreases self,
    {
        if self.0@.len() == 0 {
            "{}"@
        } else {
            "{\n"@ + Statement::indented_texts(self.0@, seq!['\t']).flatten() + "}"@
        }
    }

    /// Appends the canonical text to `out`.
    pub fn write_to(&self, out: &mut String)
        ensures
            final(out)@ == old(out)@ + self.text(),
        decreases self, 0int,
    {
        let ghost start = out@;
        if self.0.len() == 0 {
            out.append("{}");
        } else {
            out.append("{\n");
            let ghost opened = out@;
            let ghost parts = Statement::indented_texts(self.0@, seq!['\t']);
            let mut i: usize = 0;
            assert(parts.take(0) =~= Seq::empty());
            assert(out@ =~= opened + parts.take(0).flatten());
            while i < self.0.len()
                invariant
                    i <= self.0.len(),
                    parts == Statement::indented_texts(self.0@, seq!['\t']),
                    out@ == opened + parts.take(i as int).flatten(),
                decreases self.0.len() - i,
            {
                let rendered = self.0[i].to_string();
                push_indented(rendered.as_str(), out);
                proof {
                    let part = indent(self.0@[i as int].text(), seq!['\t']);
                    assert(parts[i as int] == part);
                    assert(parts.take(i + 1) =~= parts.take(i as int).push(part));
                    parts.take(i as int).lemma_flatten_push(part);
                }
                i += 1;
            }
            assert(parts.take(i as int) =~= parts);
            out.append("}");
        }
        assert(out@ =~= start + self.text());
    }

    /// The canonical text as a string.
    pub fn to_string(&self) -> (s: String)
        ensures
            s@ == self.text(),
    {
        let mut s = String::new();
        self.write_to(&mut s);
        assert(s@ =~= self.text());
        s
    }

    /// A block without statements is a pair of braces with nothing between
    /// them.
    pub proof fn lemma_empty_block(self)
        requires
            self.0@.len() == 0,
        ensures
            self.text() == "{}"@,
            self.text() == seq!['{', '}'],
    {
        reveal_strlit("{}");
        assert("{}"@ =~= seq!['{', '}']);
    }

    /// Indentation nests. Where the text of a block with statements is
    /// indented, its two braces get the prefix, and every line of every
    /// statement gets the prefix and one tab more.
    pub proof fn lemma_indent_block(self, prefix: Seq<char>)
        requires
            self.0@.len() > 0,
        ensures
            indent(self.text(), prefix) == prefix + "{\n"@ + Statement::indented_texts(
                self.0@,
                prefix.push('\t'),
            ).flatten() + prefix + "}\n"@,
    {
        reveal_strlit("{\n");
        reveal_strlit("}\n");
        reveal_strlit("}");
        let tab = seq!['\t'];
        let open = seq!['{'];
        let close = seq!['}'];
        let nl = seq!['\n'];
        let body = Statement::indented_texts(self.0@, tab).flatten();
        assert(self.text() =~= open + nl + (body + close));
        lemma_indent_concat(open, body + close, prefix);
        lemma_indent_single_line(open, prefix);
        Statement::lemma_indent_statements(self.0@, tab, close, prefix);
        lemma_indent_single_line(close, prefix);
        assert(prefix + tab =~= prefix.push('\t'));
        assert(prefix + open + nl =~= prefix + "{\n"@);
        assert(prefix + close + nl =~= prefix + "}\n"@);
        let deeper = Statement::indented_texts(self.0@, prefix.push('\t')).flatten();
        assert((prefix + "{\n"@) + (deeper + (prefix + "}\n"@)) =~= prefix + "{\n"@ + deeper
            + prefix + "}\n"@);
    }

    /// A block that holds nothing but a block that holds one statement: the
    /// inner braces are indented by one tab, and every line of the statement
    /// by two. A statement whose text is one line, such as an assignment of
    /// a one-line expression to a plain name, has two tabs before it.
    pub proof fn lemma_nested_block(self, inner: BlockStmt, statement: Statement)
        requires
            self.0@ == seq![Statement::Block(inner)],
            inner.0@ == seq![statement],
        ensures
            self.text() == "{\n\t{\n"@ + indent(statement.text(), seq!['\t', '\t']) + "\t}\n}"@,
            newline_free(statement.text()) ==> self.text() == "{\n\t{\n\t\t"@
                + statement.text() + "\n\t}\n}"@,
    {
        reveal_strlit("{\n");
        reveal_strlit("}\n");
        reveal_strlit("}");
        reveal_strlit("{\n\t{\n");
        reveal_strlit("\t}\n}");
        reveal_strlit("{\n\t{\n\t\t");
        reveal_strlit("\n\t}\n}");
        let tab = seq!['\t'];
        let tabs = seq!['\t', '\t'];
        assert(tab.push('\t') =~= tabs);
        let outer_parts = Statement::indented_texts(self.0@, tab);
        assert(outer_parts =~= seq![indent(inner.text(), tab)]);
        outer_parts.lemma_flatten_one_element();
        inner.lemma_indent_block(tab);
        let inner_parts = Statement::indented_texts(inner.0@, tabs);
        assert(inner_parts =~= seq![indent(statement.text(), tabs)]);
        inner_parts.lemma_flatten_one_element();
        let twice = indent(statement.text(), tabs);
        assert(self.text() =~= "{\n"@ + (tab + "{\n"@ + twice + tab + "}\n"@) + "}"@);
        assert(self.text() =~= "{\n\t{\n"@ + twice + "\t}\n}"@);
        if newline_free(statement.text()) {
            lemma_indent_single_line(statement.text(), tabs);
            assert(self.text() =~= "{\n\t{\n\t\t"@ + statement.text() + "\n\t}\n}"@);
        }
    }
}

impl Statement {
    /// The canonical text. Only an assignment ends in a semicolon.
    pub open spec fn text(&self) -> Seq<char>
        decreases self,
    {
        match self {
            Statement::If { cond, true_case, false_case: None } => "if "@ + cond.text() + " "@
                + true_case.text(),
            Statement::If { cond, true_case, false_case: Some(other) } => "if "@ + cond.text()
                + " "@ + true_case.text() + " else "@ + other.text(),
            Statement::Assign { left, op, right } => left.text() + " "@ + op.spelling() + " "@
                + right.text() + ";"@,
            Statement::Block(block) => block.text(),
        }
    }

    /// The texts of the statements of a list, in order, each with `prefix`
    /// before every line of it. In a block the prefix is one tab.
    pub open spec fn indented_texts(statements: Seq<Statement>, prefix: Seq<char>) -> Seq<
        Seq<char>,
    >
        decreases statements,
    {
        Seq::new(
            statements.len(),
            |i: int|
                if 0 <= i < statements.len() {
                    indent(statements[i].text(), prefix)
                } else {
                    Seq::empty()
                },
        )
    }

    /// Appends the canonical text to `out`.
    pub fn write_to(&self, out: &mut String)
        ensures
            final(out)@ == old(out)@ + self.text(),
        decreases self, 0int,
    {
        let ghost start = out@;
        match self {
            Statement::If { cond, true_case, false_case } => {
                out.append("if ");
                cond.write_to(out);
                out.append(" ");
                true_case.write_to(out);
                match false_case {
                    Some(other) => {
                        out.append(" else ");
                        other.write_to(out);
                    },
                    None => {},
                }
            },
            Statement::Assign { left, op, right } => {
                left.write_to(out);
                out.append(" ");
                out.append(op.as_str());
                out.append(" ");
                right.write_to(out);
                out.append(";");
            },
            Statement::Block(block) => {
                block.write_to(out);
            },
        }
        assert(out@ =~= start + self.text());
    }

    /// The canonical text as a string.
    pub fn to_string(&self) -> (s: String)
        ensures
            s@ == self.text(),
        decreases self, 1int,
    {
        let mut s = String::new();
        self.write_to(&mut s);
        assert(s@ =~= self.text());
        s
    }
    /// The two forms of a conditional: without an `else` branch the text ends
    /// with the block of the true case; with one, ` else ` and the other
    /// block follow on it and nothing else changes.
    pub proof fn lemma_conditional(cond: Expression, true_case: BlockStmt, other: BlockStmt)
        ensures
            (Statement::If { cond, true_case, false_case: None }).text() == "if "@ + cond.text()
                + " "@ + true_case.text(),
            (Statement::If { cond, true_case, false_case: Some(other) }).text() == (Statement::If {
                cond,
                true_case,
                false_case: None,
            }).text() + " else "@ + other.text(),
    {
    }

    /// An assignment is the only statement that ends in a semicolon of its
    /// own: target, operator and value with one space between them, then `;`.
    pub proof fn lemma_assignment(left: VName, op: AssignOp, right: Expression)
        ensures
            (Statement::Assign { left, op, right }).text() == left.text() + " "@ + op.spelling()
                + " "@ + right.text() + ";"@,
    {
    }

    /// A block that stands as a statement reads as the block itself.
    pub proof fn lemma_bare_block(block: BlockStmt)
        ensures
            Statement::Block(block).text() == block.text(),
    {
    }

    /// Indenting statements that were indented before, and that are followed
    /// by `rest` on a line of its own, puts the new prefix before the old one
    /// on every line of them.
    pub proof fn lemma_indent_statements(
        statements: Seq<Statement>,
        inner: Seq<char>,
        rest: Seq<char>,
        outer: Seq<char>,
    )
        requires
            newline_free(inner),
        ensures
            indent(Statement::indented_texts(statements, inner).flatten() + rest, outer)
                == Statement::indented_texts(statements, outer + inner).flatten() + indent(
                rest,
                outer,
            ),
        decreases statements.len(),
    {
        let once = Statement::indented_texts(statements, inner);
        let twice = Statement::indented_texts(statements, outer + inner);
        if statements.len() == 0 {
            assert(once =~= Seq::empty());
            assert(twice =~= Seq::empty());
            assert(once.flatten() + rest =~= rest);
            assert(twice.flatten() + indent(rest, outer) =~= indent(rest, outer));
        } else {
            let head = statements.drop_last();
            let last = statements.last();
            let head_once = Statement::indented_texts(head, inner);
            let head_twice = Statement::indented_texts(head, outer + inner);
            assert(once =~= head_once.push(indent(last.text(), inner)));
            assert(twice =~= head_twice.push(indent(last.text(), outer + inner)));
            head_once.lemma_flatten_push(indent(last.text(), inner));
            head_twice.lemma_flatten_push(indent(last.text(), outer + inner));
            assert(once.flatten() + rest =~= head_once.flatten() + (indent(last.text(), inner)
                + rest));
            let tail = indent(last.text(), inner) + rest;
            Statement::lemma_indent_statements(head, inner, tail, outer);
            lemma_indent_nested(last.text(), inner, rest, outer);
            assert(head_twice.flatten() + (indent(last.text(), outer + inner) + indent(
                rest,
                outer,
            )) =~= twice.flatten() + indent(rest, outer));
        }
    }
}

} // verus!
