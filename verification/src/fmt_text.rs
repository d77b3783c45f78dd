use vstd::prelude::*;

verus! {

/// The text that std's formatting renders for the rectangle's diagnostic
/// line; a function of the four corner integers alone.
pub uninterp spec fn rect_line_of(top: int, left: int, bottom: int, right: int) -> Seq<char>;

/// The text that std's formatting renders for a point's diagnostic line; a
/// function of the identity and the two coordinates alone.
pub uninterp spec fn point_line_of(object_id: int, x: int, y: int) -> Seq<char>;

/// The text that std's formatting renders for a node's diagnostic heading; a
/// function of the depth and the rectangle text alone.
pub uninterp spec fn tree_heading_of(depth: int, area: Seq<char>) -> Seq<char>;

/// Relies on std's `format!` macro to render four integers into the
/// rectangle's one-line diagnostic text; the output depends on the four
/// integers alone.
#[verifier::external_body]
pub(crate) fn fmt_rect_line(top: i64, left: i64, bottom: i64, right: i64) -> (r: String)
    ensures
        r@ == rect_line_of(top as int, left as int, bottom as int, right as int),
{
    format!("Rect from ({top}, {left}) to ({bottom}, {right})")
}

/// Relies on std's `format!` macro to render three integers into the point's
/// one-line diagnostic text; the output depends on the three integers alone.
#[verifier::external_body]
pub(crate) fn fmt_point_line(object_id: i32, x: i32, y: i32) -> (r: String)
    ensures
        r@ == point_line_of(object_id as int, x as int, y as int),
{
    format!("Object {object_id} at ({x}, {y})")
}

/// Relies on std's `format!` macro to render a node's depth and the text of
/// its bounding rectangle into the node's diagnostic heading; the output
/// depends on the depth and that text alone.
#[verifier::external_body]
pub(crate) fn fmt_tree_heading(depth: usize, area: &str) -> (r: String)
    ensures
        r@ == tree_heading_of(depth as int, area@),
{
    format!("Tree of depth {depth} at {area}. ")
}

/// Relies on std's `format!` macro: formatting two string slices side by
/// side yields their characters joined in order.
#[verifier::external_body]
pub(crate) fn concat2(a: &str, b: &str) -> (r: String)
    ensures
        r@ == a@ + b@,
{
    format!("{a}{b}")
}

} // verus!
