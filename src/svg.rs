//! Text-colour override for rendered math SVGs.
use vstd::prelude::*;
use crate::text::{
    decimal, digit, digit_char, push_decimal,
    chars_of, ends_with, find_char_from, find_sub_from, find_substring_from, index_of_from,
    push_all, push_str, slice, string_from_chars, trim, trim_end, trimmed, ws_run_back,
};

verus! {

broadcast use vstd::string::group_string_axioms;

/// An unmultiplied sRGBA colour.
#[derive(Clone, Copy, Debug, PartialEq, Eq, Hash)]
pub struct TextColor {
    pub r: u8,
    pub g: u8,
    pub b: u8,
    pub a: u8,
}

/// `n / 255` rounded to three decimals, in thousandths (no ties occur).
pub open spec fn alpha_thousandths(a: nat) -> nat {
    (a * 2000 + 255) / 510
}

/// `0.ddd` for `t` thousandths below one, `1.000` for one.
pub open spec fn three_decimals(t: nat) -> Seq<char> {
    seq![
        digit_char(t / 1000),
        '.',
        digit_char((t / 100) % 10),
        digit_char((t / 10) % 10),
        digit_char(t % 10),
    ]
}

/// `color: rgb(r, g, b);`, or `color: rgba(r, g, b, x.xxx);` when not opaque.
pub open spec fn color_css(c: TextColor) -> Seq<char> {
    if c.a == 255 {
        "color: rgb("@ + decimal(c.r as nat) + ", "@ + decimal(c.g as nat) + ", "@ + decimal(
            c.b as nat,
        ) + ");"@
    } else {
        "color: rgba("@ + decimal(c.r as nat) + ", "@ + decimal(c.g as nat) + ", "@ + decimal(
            c.b as nat,
        ) + ", "@ + three_decimals(alpha_thousandths(c.a as nat)) + ");"@
    }
}

pub open spec fn style_attr() -> Seq<char> {
    "style=\""@
}

/// The SVG with `css` added to its root element's `style` attribute (a `;`
/// inserted when the existing value lacks one), or a new `style` attribute;
/// unchanged when there is no `<svg …>` start tag or its value is unclosed.
pub open spec fn svg_with_css(svg: Seq<char>, css: Seq<char>) -> Seq<char> {
    match find_sub_from(svg, "<svg"@, 0) {
        None => svg,
        Some(a) => {
            let te = index_of_from(svg, a, '>');
            if te >= svg.len() {
                svg
            } else {
                match find_sub_from(svg.subrange(a, te), style_attr(), 0) {
                    Some(p) => {
                        let vs = a + p + style_attr().len();
                        let ve = index_of_from(svg, vs, '"');
                        if ve >= svg.len() {
                            svg
                        } else {
                            let existing = svg.subrange(vs, ve);
                            let sep = if trim(existing).len() > 0 && !ends_with(
                                trim_end(existing),
                                ";"@,
                            ) {
                                ";"@
                            } else {
                                Seq::empty()
                            };
                            svg.subrange(0, ve) + sep + css + svg.subrange(ve, svg.len() as int)
                        }
                    },
                    None => svg.subrange(0, te) + " style=\""@ + css + "\""@ + svg.subrange(
                        te,
                        svg.len() as int,
                    ),
                }
            }
        },
    }
}

/// The CSS colour declaration for a text colour (see `color_css`).
pub fn svg_color_css(color: TextColor) -> (r: Vec<char>)
    ensures
        r@ == color_css(color),
{
    let mut out: Vec<char> = Vec::new();
    if color.a == 255 {
        push_str(&mut out, "color: rgb(");
    } else {
        push_str(&mut out, "color: rgba(");
    }
    let ghost head = out@;
    push_decimal(&mut out, color.r as u64);
    push_str(&mut out, ", ");
    push_decimal(&mut out, color.g as u64);
    push_str(&mut out, ", ");
    push_decimal(&mut out, color.b as u64);
    let ghost rgb = out@;
    assert(rgb =~= head + decimal(color.r as nat) + ", "@ + decimal(color.g as nat) + ", "@
        + decimal(color.b as nat));
    if color.a != 255 {
        push_str(&mut out, ", ");
        let t: u32 = (color.a as u32 * 2000 + 255) / 510;
        let ghost before = out@;
        out.push(digit((t / 1000) as u64));
        out.push('.');
        out.push(digit(((t / 100) % 10) as u64));
        out.push(digit(((t / 10) % 10) as u64));
        out.push(digit((t % 10) as u64));
        assert(digit_char(((t / 100) % 10) as nat) == digit_char((t / 100) as nat % 10));
        assert(out@ =~= before + three_decimals(alpha_thousandths(color.a as nat)));
    }
    let ghost body = out@;
    push_str(&mut out, ");");
    assert(out@ =~= body + ");"@);
    out
}

pub fn svg_with_css_chars(svg: &Vec<char>, css: &Vec<char>) -> (r: Vec<char>)
    ensures
        r@ == svg_with_css(svg@, css@),
{
    let unchanged = slice(svg, 0, svg.len());
    assert(unchanged@ =~= svg@);
    let a = match find_substring_from(svg, &chars_of("<svg"), 0) {
        None => {
            return unchanged;
        },
        Some(a) => a,
    };
    let te = find_char_from(svg, a, '>');
    if te >= svg.len() {
        return unchanged;
    }
    let tag = slice(svg, a, te);
    let style = chars_of("style=\"");
    match find_substring_from(&tag, &style, 0) {
        Some(p) => {
            let vs = a + p + style.len();
            let ve = find_char_from(svg, vs, '"');
            if ve >= svg.len() {
                return unchanged;
            }
            let existing = slice(svg, vs, ve);
            let t = trimmed(&existing);
            let e = ws_run_back(&existing, existing.len());
            let te2 = slice(&existing, 0, existing.len() - e);
            let mut out = slice(svg, 0, ve);
            let need_sep = t.len() > 0 && !(te2.len() > 0 && te2[te2.len() - 1] == ';');
            proof {
                reveal_strlit(";");
                assert(";"@ =~= seq![';']);
                assert(te2@ == trim_end(existing@));
                if te2.len() > 0 {
                    assert(te2@.subrange(te2.len() - 1, te2.len() as int) =~= seq![te2@.last()]);
                    if seq![te2@.last()] == seq![';'] {
                        assert(seq![te2@.last()][0] == seq![';'][0]);
                    }
                }
            }
            assert(need_sep == (trim(existing@).len() > 0 && !ends_with(trim_end(existing@), ";"@)));
            if need_sep {
                push_str(&mut out, ";");
            } else {
                assert(out@ + Seq::<char>::empty() =~= out@);
            }
            push_all(&mut out, css);
            push_all(&mut out, &slice(svg, ve, svg.len()));
            assert(out@ =~= svg_with_css(svg@, css@));
            out
        },
        None => {
            let mut out = slice(svg, 0, te);
            push_str(&mut out, " style=\"");
            push_all(&mut out, css);
            push_str(&mut out, "\"");
            push_all(&mut out, &slice(svg, te, svg.len()));
            out
        },
    }
}

/// Sets the text colour of a rendered math SVG (see `svg_with_css` and
/// `color_css`).
pub fn apply_svg_text_color(svg: &str, color: TextColor) -> (r: String)
    ensures
        r@ == svg_with_css(svg@, color_css(color)),
{
    string_from_chars(&svg_with_css_chars(&chars_of(svg), &svg_color_css(color)))
}

} // verus!
