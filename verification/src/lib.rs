//! A small style-cascade and block-box layout engine.
//!
//! Markup is read into a document tree ([`html`], [`dom`]) and a style sheet
//! is read into rules ([`css`]). The cascade combines the two into a styled
//! tree ([`style`]), from which a tree of sized and positioned boxes is
//! computed ([`layout`]) and flattened into paint commands ([`render`]).
//! What holds of every box tree and of every layout is proved in
//! [`theorems`].
//!
//! All lengths are whole numbers of thousandths of a CSS pixel, held in
//! `i64` (see [`css::UNITS_PER_PIXEL`]). Every function is total:
//! where a computed length would leave the range of `i64`, the layout pass
//! stops with an error instead of wrapping, and malformed input is refused
//! instead of aborting.

pub mod chars;
pub mod strmap;
pub mod scan;
pub mod css;
pub mod dom;
pub mod html;
pub mod style;
pub mod layout;
pub mod theorems;
pub mod render;
pub mod outline;
