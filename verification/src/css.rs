use vstd::prelude::*;

verus! {

/// A value that can stand on the right-hand side of a CSS declaration.
pub trait CssValue {
    spec fn spec_stringify(&self) -> Seq<char>;

    fn stringify(&self) -> (r: String)
        ensures
            r@ == self.spec_stringify(),
    ;
}

impl CssValue for String {
    open spec fn spec_stringify(&self) -> Seq<char> {
        self@
    }

    fn stringify(&self) -> (r: String) {
        self.clone()
    }
}

impl CssValue for &str {
    open spec fn spec_stringify(&self) -> Seq<char> {
        self@
    }

    fn stringify(&self) -> (r: String) {
        String::from_str(self)
    }
}

/// The text of an `rgb(r,g,b)` colour value.
pub open spec fn spec_rgb(r: nat, g: nat, b: nat) -> Seq<char> {
    seq!['r', 'g', 'b', '('] + crate::text::spec_decimal(r) + seq![',']
        + crate::text::spec_decimal(g) + seq![','] + crate::text::spec_decimal(b) + seq![')']
}

/// Builds the CSS colour value `rgb(r,g,b)`.
pub fn rgb(r: u32, g: u32, b: u32) -> (v: String)
    ensures
        v@ == spec_rgb(r as nat, g as nat, b as nat),
{
    proof {
        reveal_strlit("rgb(");
        reveal_strlit(",");
        reveal_strlit(")");
    }
    let mut v = String::from_str("rgb(");
    let rs = crate::text::u32_string(r);
    v.append(rs.as_str());
    v.append(",");
    let gs = crate::text::u32_string(g);
    v.append(gs.as_str());
    v.append(",");
    let bs = crate::text::u32_string(b);
    v.append(bs.as_str());
    v.append(")");
    proof {
        assert(v@ =~= spec_rgb(r as nat, g as nat, b as nat));
    }
    v
}

/// Passes a literal colour value, such as a hex code, through unchanged.
pub fn hex(x: &str) -> (v: String)
    ensures
        v@ == x@,
{
    String::from_str(x)
}

} // verus!
