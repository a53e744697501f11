//! A minimal expression-tree model with a generic traversal (visitor)
//! mechanism, and a pretty-printer as its reference behavior.
//!
//! `Expression::accept` walks the tree bottom-up and hands each node's
//! pieces — the already-traversed children and the node's own token — to one
//! of the four visitor operations, so a visitor supplies behavior without
//! the expression type changing.  Each operation's result is pinned by a
//! spec relation of the visitor (`binary_ens` and its siblings), and
//! [`visited`] chains those relations over a whole tree.

use vstd::prelude::*;
use vstd::slice::slice_to_vec;
use vstd::string::StringSliceAdditionalSpecFns;

use crate::numeric::{int_text, int_to_text};
use crate::token::{Token, TokenV};
use crate::util::CrustCoreResult;

verus! {

/// A recursive expression tree: every child is exclusively owned.
pub enum Expression {
    Binary { left: Box<Expression>, op: Token, right: Box<Expression> },
    Grouping { expr: Box<Expression> },
    Literal { value: Token },
    Unary { op: Token, right: Box<Expression> },
}

/// A traversal behavior: one operation per expression shape.  Each operation
/// receives the traversal results of the node's children together with the
/// node's own token, and its result is pinned by the matching spec relation.
pub trait Visitor<T> {
    /// What `visit_binary` may return for the given operator and child
    /// results.
    spec fn binary_ens(&self, op: Token, left: T, right: T, out: T) -> bool;

    spec fn grouping_ens(&self, inner: T, out: T) -> bool;

    spec fn literal_ens(&self, value: Token, out: T) -> bool;

    spec fn unary_ens(&self, op: Token, right: T, out: T) -> bool;

    fn visit_binary(&self, op: &Token, left: T, right: T) -> (r: CrustCoreResult<T>)
        ensures
            r matches Ok(out) ==> self.binary_ens(*op, left, right, out),
    ;

    fn visit_grouping(&self, expr: T) -> (r: CrustCoreResult<T>)
        ensures
            r matches Ok(out) ==> self.grouping_ens(expr, out),
    ;

    fn visit_literal(&self, value: &Token) -> (r: CrustCoreResult<T>)
        ensures
            r matches Ok(out) ==> self.literal_ens(*value, out),
    ;

    fn visit_unary(&self, op: &Token, right: T) -> (r: CrustCoreResult<T>)
        ensures
            r matches Ok(out) ==> self.unary_ens(*op, right, out),
    ;
}

/// `out` is a possible traversal result of `v` over the whole tree `e`: each
/// node's value is related to its children's values by the visitor's spec
/// relation for that shape.
pub open spec fn visited<T, V: Visitor<T>>(v: V, e: Expression, out: T) -> bool
    decreases e,
{
    match e {
        Expression::Binary { left, op, right } => exists|l: T, r: T|
            visited(v, *left, l) && visited(v, *right, r) && #[trigger] v.binary_ens(
                op,
                l,
                r,
                out,
            ),
        Expression::Grouping { expr } => exists|i: T|
            visited(v, *expr, i) && #[trigger] v.grouping_ens(i, out),
        Expression::Literal { value } => v.literal_ens(value, out),
        Expression::Unary { op, right } => exists|r: T|
            visited(v, *right, r) && #[trigger] v.unary_ens(op, r, out),
    }
}

impl Expression {
    /// Traverses the tree with the given visitor: any failure of a visitor
    /// operation is propagated, and a successful result is one the visitor's
    /// spec relations allow for this tree.
    pub fn accept<T, V: Visitor<T>>(&self, visitor: &V) -> (r: CrustCoreResult<T>)
        ensures
            r matches Ok(out) ==> visited(*visitor, *self, out),
        decreases *self,
    {
        match self {
            Expression::Binary { left, op, right } => {
                let l = match left.accept(visitor) {
                    Ok(x) => x,
                    Err(e) => {
                        return Err(e);
                    },
                };
                let rr = match right.accept(visitor) {
                    Ok(x) => x,
                    Err(e) => {
                        return Err(e);
                    },
                };
                visitor.visit_binary(op, l, rr)
            },
            Expression::Grouping { expr } => {
                let inner = match expr.accept(visitor) {
                    Ok(x) => x,
                    Err(e) => {
                        return Err(e);
                    },
                };
                visitor.visit_grouping(inner)
            },
            Expression::Literal { value } => visitor.visit_literal(value),
            Expression::Unary { op, right } => {
                let rr = match right.accept(visitor) {
                    Ok(x) => x,
                    Err(e) => {
                        return Err(e);
                    },
                };
                visitor.visit_unary(op, rr)
            },
        }
    }
}

/// The rendered name of a token used as an operator: its bare variant name
/// (payload-carrying variants, which no well-formed tree uses as an
/// operator, render as their variant name alone).
pub open spec fn token_name(t: TokenV) -> Seq<u8> {
    match t {
        TokenV::LeftParen => "LeftParen".spec_bytes(),
        TokenV::RightParen => "RightParen".spec_bytes(),
        TokenV::LeftBrace => "LeftBrace".spec_bytes(),
        TokenV::RightBrace => "RightBrace".spec_bytes(),
        TokenV::Comma => "Comma".spec_bytes(),
        TokenV::Dot => "Dot".spec_bytes(),
        TokenV::Minus => "Minus".spec_bytes(),
        TokenV::Plus => "Plus".spec_bytes(),
        TokenV::Semicolon => "Semicolon".spec_bytes(),
        TokenV::Slash => "Slash".spec_bytes(),
        TokenV::Star => "Star".spec_bytes(),
        TokenV::Bang => "Bang".spec_bytes(),
        TokenV::BangEqual => "BangEqual".spec_bytes(),
        TokenV::Equal => "Equal".spec_bytes(),
        TokenV::EqualEqual => "EqualEqual".spec_bytes(),
        TokenV::Greater => "Greater".spec_bytes(),
        TokenV::GreaterEqual => "GreaterEqual".spec_bytes(),
        TokenV::Less => "Less".spec_bytes(),
        TokenV::LessEqual => "LessEqual".spec_bytes(),
        TokenV::BitAnd => "BitAnd".spec_bytes(),
        TokenV::BitOr => "BitOr".spec_bytes(),
        TokenV::And => "And".spec_bytes(),
        TokenV::Or => "Or".spec_bytes(),
        TokenV::Eof => "Eof".spec_bytes(),
        TokenV::Class => "Class".spec_bytes(),
        TokenV::If => "If".spec_bytes(),
        TokenV::Else => "Else".spec_bytes(),
        TokenV::True => "True".spec_bytes(),
        TokenV::False => "False".spec_bytes(),
        TokenV::Fn => "Fn".spec_bytes(),
        TokenV::For => "For".spec_bytes(),
        TokenV::Mut => "Mut".spec_bytes(),
        TokenV::While => "While".spec_bytes(),
        TokenV::Loop => "Loop".spec_bytes(),
        TokenV::Break => "Break".spec_bytes(),
        TokenV::Return => "Return".spec_bytes(),
        TokenV::This => "This".spec_bytes(),
        TokenV::Super => "Super".spec_bytes(),
        TokenV::Let => "Let".spec_bytes(),
        TokenV::Identifier(_) => "Identifier".spec_bytes(),
        TokenV::String(_) => "String".spec_bytes(),
        TokenV::Float(_) => "Float".spec_bytes(),
        TokenV::Integer(_) => "Integer".spec_bytes(),
    }
}

/// The rendered text of a token used as a literal: identifier and string
/// payloads quoted, a float literal's exact text, an integer's canonical
/// decimal text, and the word `nil` for any token that carries no data (an
/// edge case no well-formed tree produces, handled rather than failing).
pub open spec fn literal_text(t: TokenV) -> Seq<u8> {
    match t {
        TokenV::Identifier(text) => seq![34u8] + text + seq![34u8],
        TokenV::String(text) => seq![34u8] + text + seq![34u8],
        TokenV::Float(text) => text,
        TokenV::Integer(v) => int_text(v as int),
        _ => "nil".spec_bytes(),
    }
}

/// The text the pretty-printer renders for a whole tree: a binary node as
/// `( <op> <left> <right> )`, unary as `( <op> <right> )`, grouping as
/// `( group <expr> )`, and a literal as its own textual form.
pub open spec fn print_text(e: Expression) -> Seq<u8>
    decreases e,
{
    match e {
        Expression::Binary { left, op, right } => "( ".spec_bytes() + token_name(op@)
            + " ".spec_bytes() + print_text(*left) + " ".spec_bytes() + print_text(*right)
            + " )".spec_bytes(),
        Expression::Grouping { expr } => "( group ".spec_bytes() + print_text(*expr)
            + " )".spec_bytes(),
        Expression::Literal { value } => literal_text(value@),
        Expression::Unary { op, right } => "( ".spec_bytes() + token_name(op@) + " ".spec_bytes()
            + print_text(*right) + " )".spec_bytes(),
    }
}

/// Appends a byte buffer to the output being built.
fn push_bytes(out: &mut Vec<u8>, s: &[u8])
    ensures
        final(out)@ == old(out)@ + s@,
{
    let mut i: usize = 0;
    while i < s.len()
        invariant
            i <= s@.len(),
            out@ == old(out)@ + s@.subrange(0, i as int),
        decreases s@.len() - i,
    {
        out.push(s[i]);
        i = i + 1;
        proof {
            assert(old(out)@ + s@.subrange(0, i as int) =~= (old(out)@ + s@.subrange(0, i - 1)).push(
                s@[i - 1],
            ));
        }
    }
    proof {
        assert(old(out)@ + s@.subrange(0, s@.len() as int) =~= old(out)@ + s@);
    }
}

/// The rendered variant name of a token, as `token_name` gives it.
fn token_name_bytes(t: &Token) -> (r: Vec<u8>)
    ensures
        r@ == token_name(t@),
{
    match t {
        Token::LeftParen => slice_to_vec("LeftParen".as_bytes()),
        Token::RightParen => slice_to_vec("RightParen".as_bytes()),
        Token::LeftBrace => slice_to_vec("LeftBrace".as_bytes()),
        Token::RightBrace => slice_to_vec("RightBrace".as_bytes()),
        Token::Comma => slice_to_vec("Comma".as_bytes()),
        Token::Dot => slice_to_vec("Dot".as_bytes()),
        Token::Minus => slice_to_vec("Minus".as_bytes()),
        Token::Plus => slice_to_vec("Plus".as_bytes()),
        Token::Semicolon => slice_to_vec("Semicolon".as_bytes()),
        Token::Slash => slice_to_vec("Slash".as_bytes()),
        Token::Star => slice_to_vec("Star".as_bytes()),
        Token::Bang => slice_to_vec("Bang".as_bytes()),
        Token::BangEqual => slice_to_vec("BangEqual".as_bytes()),
        Token::Equal => slice_to_vec("Equal".as_bytes()),
        Token::EqualEqual => slice_to_vec("EqualEqual".as_bytes()),
        Token::Greater => slice_to_vec("Greater".as_bytes()),
        Token::GreaterEqual => slice_to_vec("GreaterEqual".as_bytes()),
        Token::Less => slice_to_vec("Less".as_bytes()),
        Token::LessEqual => slice_to_vec("LessEqual".as_bytes()),
        Token::BitAnd => slice_to_vec("BitAnd".as_bytes()),
        Token::BitOr => slice_to_vec("BitOr".as_bytes()),
        Token::And => slice_to_vec("And".as_bytes()),
        Token::Or => slice_to_vec("Or".as_bytes()),
        Token::Eof => slice_to_vec("Eof".as_bytes()),
        Token::Class => slice_to_vec("Class".as_bytes()),
        Token::If => slice_to_vec("If".as_bytes()),
        Token::Else => slice_to_vec("Else".as_bytes()),
        Token::True => slice_to_vec("True".as_bytes()),
        Token::False => slice_to_vec("False".as_bytes()),
        Token::Fn => slice_to_vec("Fn".as_bytes()),
        Token::For => slice_to_vec("For".as_bytes()),
        Token::Mut => slice_to_vec("Mut".as_bytes()),
        Token::While => slice_to_vec("While".as_bytes()),
        Token::Loop => slice_to_vec("Loop".as_bytes()),
        Token::Break => slice_to_vec("Break".as_bytes()),
        Token::Return => slice_to_vec("Return".as_bytes()),
        Token::This => slice_to_vec("This".as_bytes()),
        Token::Super => slice_to_vec("Super".as_bytes()),
        Token::Let => slice_to_vec("Let".as_bytes()),
        Token::Identifier(_) => slice_to_vec("Identifier".as_bytes()),
        Token::String(_) => slice_to_vec("String".as_bytes()),
        Token::Float(_) => slice_to_vec("Float".as_bytes()),
        Token::Integer(_) => slice_to_vec("Integer".as_bytes()),
    }
}

/// The pretty-printer: a visitor whose traversal result is the rendered
/// byte text of the tree.  It never fails.
pub struct AstPrinter;

impl Visitor<Vec<u8>> for AstPrinter {
    open spec fn binary_ens(&self, op: Token, left: Vec<u8>, right: Vec<u8>, out: Vec<u8>) -> bool {
        out@ == "( ".spec_bytes() + token_name(op@) + " ".spec_bytes() + left@ + " ".spec_bytes()
            + right@ + " )".spec_bytes()
    }

    open spec fn grouping_ens(&self, inner: Vec<u8>, out: Vec<u8>) -> bool {
        out@ == "( group ".spec_bytes() + inner@ + " )".spec_bytes()
    }

    open spec fn literal_ens(&self, value: Token, out: Vec<u8>) -> bool {
        out@ == literal_text(value@)
    }

    open spec fn unary_ens(&self, op: Token, right: Vec<u8>, out: Vec<u8>) -> bool {
        out@ == "( ".spec_bytes() + token_name(op@) + " ".spec_bytes() + right@ + " )".spec_bytes()
    }

    fn visit_binary(&self, op: &Token, left: Vec<u8>, right: Vec<u8>) -> (r: CrustCoreResult<
        Vec<u8>,
    >)
        ensures
            r matches Ok(out) ==> self.binary_ens(*op, left, right, out),
            r is Ok,
    {
        let mut out: Vec<u8> = Vec::new();
        push_bytes(&mut out, "( ".as_bytes());
        let name = token_name_bytes(op);
        push_bytes(&mut out, name.as_slice());
        push_bytes(&mut out, " ".as_bytes());
        push_bytes(&mut out, left.as_slice());
        push_bytes(&mut out, " ".as_bytes());
        push_bytes(&mut out, right.as_slice());
        push_bytes(&mut out, " )".as_bytes());
        proof {
            assert(out@ =~= "( ".spec_bytes() + token_name(op@) + " ".spec_bytes() + left@
                + " ".spec_bytes() + right@ + " )".spec_bytes());
        }
        Ok(out)
    }

    fn visit_grouping(&self, expr: Vec<u8>) -> (r: CrustCoreResult<Vec<u8>>)
        ensures
            r matches Ok(out) ==> self.grouping_ens(expr, out),
            r is Ok,
    {
        let mut out: Vec<u8> = Vec::new();
        push_bytes(&mut out, "( group ".as_bytes());
        push_bytes(&mut out, expr.as_slice());
        push_bytes(&mut out, " )".as_bytes());
        proof {
            assert(out@ =~= "( group ".spec_bytes() + expr@ + " )".spec_bytes());
        }
        Ok(out)
    }

    fn visit_literal(&self, value: &Token) -> (r: CrustCoreResult<Vec<u8>>)
        ensures
            r matches Ok(out) ==> self.literal_ens(*value, out),
            r is Ok,
    {
        match value {
            Token::Identifier(text) => {
                let mut out: Vec<u8> = Vec::new();
                out.push(34);
                push_bytes(&mut out, text.as_slice());
                out.push(34);
                proof {
                    assert(out@ =~= seq![34u8] + text@ + seq![34u8]);
                }
                Ok(out)
            },
            Token::String(text) => {
                let mut out: Vec<u8> = Vec::new();
                out.push(34);
                push_bytes(&mut out, text.as_slice());
                out.push(34);
                proof {
                    assert(out@ =~= seq![34u8] + text@ + seq![34u8]);
                }
                Ok(out)
            },
            Token::Float(text) => Ok(slice_to_vec(text.as_slice())),
            Token::Integer(v) => Ok(int_to_text(*v)),
            _ => Ok(slice_to_vec("nil".as_bytes())),
        }
    }

    fn visit_unary(&self, op: &Token, right: Vec<u8>) -> (r: CrustCoreResult<Vec<u8>>)
        ensures
            r matches Ok(out) ==> self.unary_ens(*op, right, out),
            r is Ok,
    {
        let mut out: Vec<u8> = Vec::new();
        push_bytes(&mut out, "( ".as_bytes());
        let name = token_name_bytes(op);
        push_bytes(&mut out, name.as_slice());
        push_bytes(&mut out, " ".as_bytes());
        push_bytes(&mut out, right.as_slice());
        push_bytes(&mut out, " )".as_bytes());
        proof {
            assert(out@ =~= "( ".spec_bytes() + token_name(op@) + " ".spec_bytes() + right@
                + " )".spec_bytes());
        }
        Ok(out)
    }
}

/// The printer is deterministic: any traversal result it allows for a tree
/// is exactly the rendered text of that tree.  Together with the contract of
/// `accept`, a successful `e.accept(&AstPrinter)` returns `print_text(e)`.
pub proof fn lemma_printer_exact(e: Expression, out: Vec<u8>)
    requires
        visited(AstPrinter, e, out),
    ensures
        out@ == print_text(e),
    decreases e,
{
    let p = AstPrinter;
    match e {
        Expression::Binary { left, op, right } => {
            let (l, r) = choose|l: Vec<u8>, r: Vec<u8>|
                visited(p, *left, l) && visited(p, *right, r) && #[trigger] p.binary_ens(
                    op,
                    l,
                    r,
                    out,
                );
            lemma_printer_exact(*left, l);
            lemma_printer_exact(*right, r);
        },
        Expression::Grouping { expr } => {
            let i = choose|i: Vec<u8>| visited(p, *expr, i) && #[trigger] p.grouping_ens(i, out);
            lemma_printer_exact(*expr, i);
        },
        Expression::Literal { value } => {},
        Expression::Unary { op, right } => {
            let r = choose|r: Vec<u8>| visited(p, *right, r) && #[trigger] p.unary_ens(op, r, out);
            lemma_printer_exact(*right, r);
        },
    }
}

} // verus!
