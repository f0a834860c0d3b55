use vstd::prelude::*;

verus! {

/// A regular expression over `char` symbols, as a closed algebraic tree.
///
/// A tree is immutable and acyclic: composite nodes own their children
/// outright, and no node is changed after construction. Its meaning is the
/// language [`in_lang`] gives it.
#[derive(Debug)]
pub enum Expr {
    /// Matches no string at all: the absorbing element of the algebra.
    EmptyLang,
    /// Matches only the zero-length string.
    EmptyStr,
    /// Matches exactly the one-symbol string made of the payload.
    Symbol(char),
    /// Matches every string splittable into a left match followed by a
    /// right match.
    Concat(Box<Expr>, Box<Expr>),
    /// Matches every string matched by the left side or by the right side.
    Union(Box<Expr>, Box<Expr>),
}

/// The language of `e`: holds exactly when the symbol sequence `s` is a
/// member of it.
pub open spec fn in_lang(e: Expr, s: Seq<char>) -> bool
    decreases e,
{
    match e {
        Expr::EmptyLang => false,
        Expr::EmptyStr => s.len() == 0,
        Expr::Symbol(c) => s.len() == 1 && s[0] == c,
        Expr::Concat(l, r) => exists|i: int|
            0 <= i <= s.len() && in_lang(*l, #[trigger] s.subrange(0, i))
                && in_lang(*r, s.subrange(i, s.len() as int)),
        Expr::Union(l, r) => in_lang(*l, s) || in_lang(*r, s),
    }
}

/// Builds the concatenation of `l` then `r`, without interpreting either
/// side.
pub fn and(l: Expr, r: Expr) -> (res: Expr)
    ensures
        res == Expr::Concat(Box::new(l), Box::new(r)),
{
    Expr::Concat(Box::new(l), Box::new(r))
}

/// Builds the union (alternation) of `l` and `r`, without interpreting
/// either side.
pub fn or(l: Expr, r: Expr) -> (res: Expr)
    ensures
        res == Expr::Union(Box::new(l), Box::new(r)),
{
    Expr::Union(Box::new(l), Box::new(r))
}

/// Tests whether `e` is structurally the empty-language node.
pub fn is_empty_lang(e: &Expr) -> (res: bool)
    ensures
        res == (*e matches Expr::EmptyLang),
{
    matches!(e, Expr::EmptyLang)
}

impl Clone for Expr {
    /// A deep structural copy: the clone is equal in value to the original.
    fn clone(&self) -> (res: Self)
        ensures
            res == *self,
    {
        clone_expr(self)
    }
}

fn clone_expr(e: &Expr) -> (res: Expr)
    ensures
        res == *e,
    decreases *e,
{
    match e {
        Expr::EmptyLang => Expr::EmptyLang,
        Expr::EmptyStr => Expr::EmptyStr,
        Expr::Symbol(c) => Expr::Symbol(*c),
        Expr::Concat(l, r) => Expr::Concat(Box::new(clone_expr(l)), Box::new(clone_expr(r))),
        Expr::Union(l, r) => Expr::Union(Box::new(clone_expr(l)), Box::new(clone_expr(r))),
    }
}

impl PartialEq for Expr {
    /// Structural equality: same variant and, recursively, equal children.
    fn eq(&self, other: &Self) -> bool {
        eq_expr(self, other)
    }
}

impl vstd::std_specs::cmp::PartialEqSpecImpl for Expr {
    open spec fn obeys_eq_spec() -> bool {
        true
    }

    open spec fn eq_spec(&self, other: &Expr) -> bool {
        *self == *other
    }
}

fn eq_expr(a: &Expr, b: &Expr) -> (res: bool)
    ensures
        res == (*a == *b),
    decreases *a,
{
    match (a, b) {
        (Expr::EmptyLang, Expr::EmptyLang) => true,
        (Expr::EmptyStr, Expr::EmptyStr) => true,
        (Expr::Symbol(x), Expr::Symbol(y)) => *x == *y,
        (Expr::Concat(al, ar), Expr::Concat(bl, br)) => eq_expr(al, bl) && eq_expr(ar, br),
        (Expr::Union(al, ar), Expr::Union(bl, br)) => eq_expr(al, bl) && eq_expr(ar, br),
        _ => false,
    }
}

} // verus!
