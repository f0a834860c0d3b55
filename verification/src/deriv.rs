use crate::expr::Expr;
use crate::expr::and;
use crate::expr::in_lang;
use crate::expr::is_empty_lang;
use crate::expr::or;
use vstd::pervasive::unreached;
use vstd::prelude::*;

verus! {

/// Whether the language of `e` contains the zero-length string, decided by
/// structural recursion over the tree.
pub open spec fn spec_nullable(e: Expr) -> bool
    decreases e,
{
    match e {
        Expr::EmptyLang => false,
        Expr::EmptyStr => true,
        Expr::Symbol(_) => false,
        Expr::Concat(l, r) => spec_nullable(*l) && spec_nullable(*r),
        Expr::Union(l, r) => spec_nullable(*l) || spec_nullable(*r),
    }
}

/// The recursive nullability rules decide exactly membership of the empty
/// sequence in the language of `e`.
pub proof fn lemma_nullable_iff_empty_in_lang(e: Expr)
    ensures
        spec_nullable(e) == in_lang(e, Seq::<char>::empty()),
    decreases e,
{
    match e {
        Expr::EmptyLang => {},
        Expr::EmptyStr => {},
        Expr::Symbol(_) => {},
        Expr::Concat(l, r) => {
            lemma_nullable_iff_empty_in_lang(*l);
            lemma_nullable_iff_empty_in_lang(*r);
            let s = Seq::<char>::empty();
            assert(s.subrange(0, 0) =~= s);
            if spec_nullable(e) {
                assert(in_lang(*l, s.subrange(0, 0)) && in_lang(*r, s.subrange(0, s.len() as int)));
            }
        },
        Expr::Union(l, r) => {
            lemma_nullable_iff_empty_in_lang(*l);
            lemma_nullable_iff_empty_in_lang(*r);
        },
    }
}

/// Decides whether `e` accepts the empty sequence.
pub fn is_nullable(e: &Expr) -> (res: bool)
    ensures
        res == spec_nullable(*e),
        res == in_lang(*e, Seq::<char>::empty()),
    decreases *e,
{
    proof {
        lemma_nullable_iff_empty_in_lang(*e);
    }
    match e {
        Expr::EmptyLang => false,
        Expr::EmptyStr => true,
        Expr::Symbol(_) => false,
        Expr::Concat(l, r) => is_nullable(l) && is_nullable(r),
        Expr::Union(l, r) => is_nullable(l) || is_nullable(r),
    }
}

/// The Brzozowski derivative of `e` with respect to `c`, by structural
/// recursion: the residual expression for the strings of `e`'s language
/// that begin with `c`, after that leading symbol is consumed.
///
/// Unions and concatenations simplify first: a side of a union that is
/// structurally the empty language is dropped, and a concatenation with a
/// structurally empty-language child collapses outright, since its language
/// holds no string at all. Recursion therefore never descends into a bare
/// `Expr::EmptyLang` node. On that node itself this function yields the
/// mathematically exact derivative (the empty language again), though the
/// executable [`derive`] refuses it as a contract violation.
pub open spec fn spec_derive(e: Expr, c: char) -> Expr
    decreases e,
{
    match e {
        Expr::EmptyLang => Expr::EmptyLang,
        Expr::EmptyStr => Expr::EmptyLang,
        Expr::Symbol(a) => if a == c {
            Expr::EmptyStr
        } else {
            Expr::EmptyLang
        },
        Expr::Concat(l, r) => if (*l matches Expr::EmptyLang) || (*r matches Expr::EmptyLang) {
            Expr::EmptyLang
        } else if spec_nullable(*l) {
            Expr::Union(
                Box::new(Expr::Concat(Box::new(spec_derive(*l, c)), r)),
                Box::new(spec_derive(*r, c)),
            )
        } else {
            Expr::Concat(Box::new(spec_derive(*l, c)), r)
        },
        Expr::Union(l, r) => if (*l matches Expr::EmptyLang) && (*r matches Expr::EmptyLang) {
            Expr::EmptyLang
        } else if (*l matches Expr::EmptyLang) {
            spec_derive(*r, c)
        } else if (*r matches Expr::EmptyLang) {
            spec_derive(*l, c)
        } else {
            Expr::Union(Box::new(spec_derive(*l, c)), Box::new(spec_derive(*r, c)))
        },
    }
}

/// `spec_derive` is the left quotient: a suffix `s` lies in the language of
/// the derivative of `e` by `c` exactly when `c` followed by `s` lies in
/// the language of `e`.
pub proof fn lemma_derive_is_derivative(e: Expr, c: char)
    ensures
        forall|s: Seq<char>| #[trigger] in_lang(spec_derive(e, c), s) == in_lang(e, seq![c] + s),
    decreases e,
{
    let cs = seq![c];
    match e {
        Expr::EmptyLang => {},
        Expr::EmptyStr => {},
        Expr::Symbol(_) => {
            assert forall|s: Seq<char>|
                #[trigger] in_lang(spec_derive(e, c), s) == in_lang(e, cs + s) by {
                assert((cs + s).len() == 1 + s.len());
                if s.len() == 0 {
                    assert((cs + s)[0] == c);
                }
            }
        },
        Expr::Concat(l, r) => {
            lemma_derive_is_derivative(*l, c);
            lemma_derive_is_derivative(*r, c);
            lemma_nullable_iff_empty_in_lang(*l);
            let dl = spec_derive(*l, c);
            let dr = spec_derive(*r, c);
            assert forall|s: Seq<char>|
                #[trigger] in_lang(spec_derive(e, c), s) == in_lang(e, cs + s) by {
                let t = cs + s;
                let sl = s.len() as int;
                let tl = t.len() as int;
                if (*l matches Expr::EmptyLang) || (*r matches Expr::EmptyLang) {
                    assert(!in_lang(e, t)) by {
                        assert forall|i: int|
                            !(0 <= i <= tl && in_lang(*l, #[trigger] t.subrange(0, i))
                                && in_lang(*r, t.subrange(i, tl))) by {}
                    }
                } else if spec_nullable(*l) {
                    if in_lang(spec_derive(e, c), s) {
                        if in_lang(Expr::Concat(Box::new(dl), r), s) {
                            let j = choose|j: int|
                                0 <= j <= sl && in_lang(dl, #[trigger] s.subrange(0, j))
                                    && in_lang(*r, s.subrange(j, sl));
                            assert(in_lang(dl, s.subrange(0, j)) == in_lang(
                                *l,
                                cs + s.subrange(0, j),
                            ));
                            assert(t.subrange(0, j + 1) =~= cs + s.subrange(0, j));
                            assert(t.subrange(j + 1, tl) =~= s.subrange(j, sl));
                            assert(in_lang(*l, t.subrange(0, j + 1)) && in_lang(
                                *r,
                                t.subrange(j + 1, tl),
                            ));
                            assert(in_lang(e, t));
                        } else {
                            assert(in_lang(dr, s));
                            assert(in_lang(dr, s) == in_lang(*r, cs + s));
                            assert(t.subrange(0, 0) =~= Seq::<char>::empty());
                            assert(t.subrange(0, tl) =~= cs + s);
                            assert(in_lang(*l, t.subrange(0, 0)) && in_lang(*r, t.subrange(0, tl)));
                            assert(in_lang(e, t));
                        }
                    }
                    if in_lang(e, t) {
                        let i = choose|i: int|
                            0 <= i <= tl && in_lang(*l, #[trigger] t.subrange(0, i)) && in_lang(
                                *r,
                                t.subrange(i, tl),
                            );
                        if i == 0 {
                            assert(t.subrange(0, tl) =~= cs + s);
                            assert(in_lang(dr, s) == in_lang(*r, cs + s));
                            assert(in_lang(dr, s));
                            assert(in_lang(spec_derive(e, c), s));
                        } else {
                            let j = i - 1;
                            assert(t.subrange(0, i) =~= cs + s.subrange(0, j));
                            assert(t.subrange(i, tl) =~= s.subrange(j, sl));
                            assert(in_lang(dl, s.subrange(0, j)) == in_lang(
                                *l,
                                cs + s.subrange(0, j),
                            ));
                            assert(in_lang(dl, s.subrange(0, j)) && in_lang(*r, s.subrange(j, sl)));
                            assert(in_lang(Expr::Concat(Box::new(dl), r), s));
                            assert(in_lang(spec_derive(e, c), s));
                        }
                    }
                } else {
                    if in_lang(spec_derive(e, c), s) {
                        let j = choose|j: int|
                            0 <= j <= sl && in_lang(dl, #[trigger] s.subrange(0, j)) && in_lang(
                                *r,
                                s.subrange(j, sl),
                            );
                        assert(in_lang(dl, s.subrange(0, j)) == in_lang(*l, cs + s.subrange(0, j)));
                        assert(t.subrange(0, j + 1) =~= cs + s.subrange(0, j));
                        assert(t.subrange(j + 1, tl) =~= s.subrange(j, sl));
                        assert(in_lang(*l, t.subrange(0, j + 1)) && in_lang(
                            *r,
                            t.subrange(j + 1, tl),
                        ));
                        assert(in_lang(e, t));
                    }
                    if in_lang(e, t) {
                        let i = choose|i: int|
                            0 <= i <= tl && in_lang(*l, #[trigger] t.subrange(0, i)) && in_lang(
                                *r,
                                t.subrange(i, tl),
                            );
                        if i == 0 {
                            assert(t.subrange(0, 0) =~= Seq::<char>::empty());
                            assert(spec_nullable(*l));
                            assert(false);
                        } else {
                            let j = i - 1;
                            assert(t.subrange(0, i) =~= cs + s.subrange(0, j));
                            assert(t.subrange(i, tl) =~= s.subrange(j, sl));
                            assert(in_lang(dl, s.subrange(0, j)) == in_lang(
                                *l,
                                cs + s.subrange(0, j),
                            ));
                            assert(in_lang(dl, s.subrange(0, j)) && in_lang(*r, s.subrange(j, sl)));
                            assert(in_lang(spec_derive(e, c), s));
                        }
                    }
                }
            }
        },
        Expr::Union(l, r) => {
            lemma_derive_is_derivative(*l, c);
            lemma_derive_is_derivative(*r, c);
            assert forall|s: Seq<char>|
                #[trigger] in_lang(spec_derive(e, c), s) == in_lang(e, cs + s) by {
                assert(in_lang(spec_derive(*l, c), s) == in_lang(*l, cs + s));
                assert(in_lang(spec_derive(*r, c), s) == in_lang(*r, cs + s));
                assert(in_lang(e, cs + s) == (in_lang(*l, cs + s) || in_lang(*r, cs + s)));
            }
        },
    }
}

/// Computes the Brzozowski derivative of `e` with respect to the symbol
/// `c`: the returned expression matches exactly the suffixes `s` for which
/// `c` followed by `s` matches `e`.
///
/// Deriving an expression that is structurally the empty language is a
/// contract violation, not a recoverable input condition, so that case is
/// excluded outright rather than given a value.
pub fn derive(e: &Expr, c: char) -> (res: Expr)
    requires
        !(*e matches Expr::EmptyLang),
    ensures
        res == spec_derive(*e, c),
        forall|s: Seq<char>| #[trigger] in_lang(res, s) == in_lang(*e, seq![c] + s),
    decreases *e,
{
    proof {
        lemma_derive_is_derivative(*e, c);
    }
    match e {
        Expr::EmptyLang => unreached(),
        Expr::EmptyStr => Expr::EmptyLang,
        Expr::Symbol(a) => if *a == c {
            Expr::EmptyStr
        } else {
            Expr::EmptyLang
        },
        Expr::Concat(l, r) => {
            if is_empty_lang(l) || is_empty_lang(r) {
                Expr::EmptyLang
            } else if is_nullable(l) {
                or(and(derive(l, c), (**r).clone()), derive(r, c))
            } else {
                and(derive(l, c), (**r).clone())
            }
        },
        Expr::Union(l, r) => {
            let l_empty = is_empty_lang(l);
            let r_empty = is_empty_lang(r);
            if l_empty && r_empty {
                Expr::EmptyLang
            } else if l_empty {
                derive(r, c)
            } else if r_empty {
                derive(l, c)
            } else {
                or(derive(l, c), derive(r, c))
            }
        },
    }
}

/// The driver at the specification level: consume the input left to right,
/// replacing the expression by its derivative at each symbol, and check
/// nullability once the input is exhausted. As soon as the residual
/// expression is structurally the empty language the input is rejected
/// outright, so the bare empty-language node is never derived.
pub open spec fn spec_parse(e: Expr, s: Seq<char>) -> bool
    decreases s.len(),
{
    if s.len() == 0 {
        spec_nullable(e)
    } else if (e matches Expr::EmptyLang) {
        false
    } else {
        spec_parse(spec_derive(e, s[0]), s.subrange(1, s.len() as int))
    }
}

/// The driver decides exactly language membership: folding `spec_derive`
/// over the input and finishing with nullability accepts a sequence if and
/// only if it lies in the language of the starting expression.
pub proof fn lemma_parse_decides_membership(e: Expr, s: Seq<char>)
    ensures
        spec_parse(e, s) == in_lang(e, s),
    decreases s.len(),
{
    if s.len() == 0 {
        lemma_nullable_iff_empty_in_lang(e);
        assert(s =~= Seq::<char>::empty());
    } else if (e matches Expr::EmptyLang) {
    } else {
        let c = s[0];
        let rest = s.subrange(1, s.len() as int);
        lemma_parse_decides_membership(spec_derive(e, c), rest);
        lemma_derive_is_derivative(e, c);
        assert(in_lang(spec_derive(e, c), rest) == in_lang(e, seq![c] + rest));
        assert(seq![c] + rest =~= s);
    }
}

/// Once the residual expression is the empty language, the driver rejects
/// every remaining input at once, without deriving the node.
pub proof fn lemma_empty_lang_rejects_all(s: Seq<char>)
    ensures
        !spec_parse(Expr::EmptyLang, s),
{
}

/// Deriving a union whose two sides are both structurally the empty
/// language collapses to the empty language in a single step, whatever the
/// symbol; the driver then rejects every input from that expression
/// without ever deriving a bare empty-language node.
pub proof fn lemma_union_of_empty_collapses(c: char, s: Seq<char>)
    ensures
        spec_derive(Expr::Union(Box::new(Expr::EmptyLang), Box::new(Expr::EmptyLang)), c)
            == Expr::EmptyLang,
        !spec_parse(Expr::Union(Box::new(Expr::EmptyLang), Box::new(Expr::EmptyLang)), s),
{
    let u = Expr::Union(Box::new(Expr::EmptyLang), Box::new(Expr::EmptyLang));
    assert(!spec_nullable(Expr::EmptyLang));
    if s.len() == 0 {
        assert(!spec_nullable(u));
    } else {
        lemma_empty_lang_rejects_all(s.subrange(1, s.len() as int));
    }
}

/// Deriving a union of two literal alternatives by a symbol that matches
/// neither collapses it: one derivation leaves a union of two
/// empty-language sides, one more collapses that to the empty language, and
/// the driver rejects the input however many further symbols follow, always
/// short-circuiting before a bare empty-language node could be derived.
pub proof fn lemma_mismatched_union_collapses(a: char, b: char, x: char, s: Seq<char>)
    requires
        x != a,
        x != b,
    ensures
        spec_derive(Expr::Union(Box::new(Expr::Symbol(a)), Box::new(Expr::Symbol(b))), x)
            == Expr::Union(Box::new(Expr::EmptyLang), Box::new(Expr::EmptyLang)),
        !spec_parse(Expr::Union(Box::new(Expr::Symbol(a)), Box::new(Expr::Symbol(b))), seq![x] + s),
{
    let t = seq![x] + s;
    assert(spec_derive(Expr::Symbol(a), x) == Expr::EmptyLang);
    assert(spec_derive(Expr::Symbol(b), x) == Expr::EmptyLang);
    assert(t.len() == 1 + s.len() && t[0] == x);
    assert(t.subrange(1, t.len() as int) =~= s);
    lemma_union_of_empty_collapses(x, s);
}

/// Decides whether the string of symbols `chars` belongs to the language
/// of `p`, each byte standing for its symbol.
pub fn parse(p: Expr, chars: &[u8]) -> (res: bool)
    ensures
        res == in_lang(p, chars@.map_values(|b: u8| b as char)),
        res == spec_parse(p, chars@.map_values(|b: u8| b as char)),
{
    let ghost input = chars@.map_values(|b: u8| b as char);
    proof {
        lemma_parse_decides_membership(p, input);
        assert(input.subrange(0, input.len() as int) =~= input);
    }
    let mut cur = p;
    let mut i: usize = 0;
    while i < chars.len()
        invariant
            i <= chars.len(),
            input == chars@.map_values(|b: u8| b as char),
            spec_parse(p, input) == in_lang(p, input),
            spec_parse(cur, input.subrange(i as int, input.len() as int)) == spec_parse(p, input),
        decreases chars.len() - i,
    {
        if is_empty_lang(&cur) {
            proof {
                let rest = input.subrange(i as int, input.len() as int);
                assert(rest.len() > 0);
                assert(!spec_parse(cur, rest));
            }
            return false;
        }
        let c = chars[i] as char;
        proof {
            let rest = input.subrange(i as int, input.len() as int);
            assert(rest[0] == c);
            assert(rest.subrange(1, rest.len() as int) =~= input.subrange(
                i + 1,
                input.len() as int,
            ));
        }
        cur = derive(&cur, c);
        i += 1;
    }
    proof {
        assert(input.subrange(i as int, input.len() as int) =~= Seq::<char>::empty());
    }
    is_nullable(&cur)
}

} // verus!
