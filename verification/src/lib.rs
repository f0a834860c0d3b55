//! A recognizer for regular languages built on Brzozowski derivatives.
//!
//! A pattern is an immutable expression tree ([`expr::Expr`]); membership of
//! a symbol sequence is decided by repeatedly deriving the expression with
//! respect to each consumed symbol and checking nullability of the residual
//! expression at the end ([`deriv::parse`]). The meaning of every operation
//! is stated against the language semantics [`expr::in_lang`] and proved.

pub mod deriv;
pub mod expr;
