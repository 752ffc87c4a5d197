//! The badge: a face whose mouth shows the engagement level as ten bars.

use crate::text::{decimal_digits, push_decimal, replace, replaced};
use vstd::prelude::*;
use vstd::string::StringExecFns;

verus! {

/// Opening of the drawing, up to the mouth. It holds the marks that stand
/// for the view box, the two colours and the frame.
pub const SVG_HEADER: &'static str = r###"<?xml version="1.0" encoding="utf-8"?>
<svg #svg_viewport# xmlns="http://www.w3.org/2000/svg">
  <defs>
    <style>
        text {
            fill: #fill_black#;
            font-weight: 900 !important;
            font-family: system-ui, BlinkMacSystemFont, 'Segoe UI', Roboto, 'Helvetica Neue', Ubuntu, Arial, sans-serif;
        }
        .fill-black {
            fill: #fill_black#
        }
        .fill-white {
            fill: #fill_white#
        }
        @media (prefers-color-scheme: dark) {
            text {
                fill: #fill_white#
            }
            .fill-black {
                fill: #fill_white#
            }
            .fill-white {
                fill: #fill_black#
            }
        }
    </style>
  </defs>
  #svg_border#
  <g transform="matrix(1, 0, 0, 1, 1.062999, 0.155999)" fill="none" fill-rule="evenodd">
    <circle class="fill-black" cx="54.5" cy="54.5" r="48.5"/>
    <g class="fill-white" transform="translate(19.587 30.779)">
      <circle cx="14.861" cy="13.861" r="8.861"/>
      <circle cx="54.966" cy="13.861" r="8.861"/>
    </g>
    <rect class="fill-white" x="31.5" y="71.2" width="47" height="8.529" rx="5"/>
"###;

/// The frame of a bordered badge, with the marks that stand for the site's
/// name and its three figures.
pub const SVG_BORDER: &'static str = r###"
<rect class="fill-white" width="577.762" height="110" style="stroke: rgb(189, 14, 43); stroke-width: 5;" rx="50"/>
<text style="font-size: 38px; white-space: pre; text-anchor: middle;" x="335" y="48.074">#site_name# 🥱</text>
<text style="font-size: 24px; white-space: pre; font-style: italic; text-anchor: middle;" x="335" y="91.615">UV: #site_uv#  Referrer: #site_referrer#  Level: #site_rank#</text>
"###;

/// Closing of the drawing.
pub const SVG_FOOTER: &'static str = r###"
    </g>
  
</svg>"###;

/// View box of a bordered badge.
pub const VIEWPORT_BORDERED: &'static str = "viewBox=\"-3.412 -2.5 584.261 115.604\"";

/// View box of a bare face.
pub const VIEWPORT_BARE: &'static str = "viewBox=\"6 6.1 98 97\"";

/// Attribute of a bar at or below the level.
pub const BAR_FILLED: &'static str = "class=\"fill-black\"";

/// Attribute of a bar above the level.
pub const BAR_EMPTY: &'static str = "fill=\"#d55f6f\"";

/// Number of bars in the mouth.
pub const BARS: i64 = 10;

/// One bar of the mouth: bar `i` is filled when it lies below `rank`, and
/// stands four units to the right of its left neighbour.
pub open spec fn bar(rank: int, i: int) -> Seq<char> {
    "<rect "@ + (if i < rank {
        BAR_FILLED@
    } else {
        BAR_EMPTY@
    }) + " x=\""@ + decimal_digits(35 + 4 * i) + ".5\" y=\"72.5\" width=\"3\" height=\"6\" rx=\"1\" />"@
}

/// The first `count` bars of the mouth.
pub open spec fn bars(rank: int, count: int) -> Seq<char>
    decreases count,
{
    if count <= 0 {
        Seq::<char>::empty()
    } else {
        bars(rank, count - 1) + bar(rank, count - 1)
    }
}

/// The frame of a bordered badge with the site's name and figures filled
/// in, one mark after the other.
pub open spec fn border(name: Seq<char>, uv: int, rv: int, rank: int) -> Seq<char> {
    replaced(
        replaced(
            replaced(replaced(SVG_BORDER@, "#site_name#"@, name), "#site_uv#"@, decimal_digits(uv)),
            "#site_referrer#"@,
            decimal_digits(rv),
        ),
        "#site_rank#"@,
        decimal_digits(rank),
    )
}

/// A badge style: two colours, and whether the face stands in a frame that
/// names the site and its figures.
pub struct BoringFace {
    fill_white: String,
    fill_black: String,
    with_border: bool,
}

impl BoringFace {
    /// The light colour.
    pub closed spec fn fill_white(&self) -> Seq<char> {
        self.fill_white@
    }

    /// The dark colour.
    pub closed spec fn fill_black(&self) -> Seq<char> {
        self.fill_black@
    }

    /// Whether the face stands in a frame.
    pub closed spec fn with_border(&self) -> bool {
        self.with_border
    }

    /// The drawing before the view box and the frame are filled in: the
    /// opening with both colours, the ten bars, and the closing.
    pub open spec fn face(&self, rank: int) -> Seq<char> {
        replaced(
            replaced(SVG_HEADER@, "#fill_white#"@, self.fill_white()),
            "#fill_black#"@,
            self.fill_black(),
        ) + bars(rank, BARS as int) + SVG_FOOTER@
    }

    /// The badge of a site called `name` with `uv` unique visitors, `rv`
    /// referrers and the level `rank`.
    pub open spec fn rendering(&self, name: Seq<char>, uv: int, rv: int, rank: int) -> Seq<char> {
        if self.with_border() {
            replaced(
                replaced(self.face(rank), "#svg_viewport#"@, VIEWPORT_BORDERED@),
                "#svg_border#"@,
                border(name, uv, rv, rank),
            )
        } else {
            replaced(self.face(rank), "#svg_viewport#"@, VIEWPORT_BARE@)
        }
    }

    /// A badge style of the given colours.
    pub fn new(fill_white: String, fill_black: String, with_border: bool) -> (face: Self)
        ensures
            face.fill_white() == fill_white@,
            face.fill_black() == fill_black@,
            face.with_border() == with_border,
    {
        Self { fill_white, fill_black, with_border }
    }

    /// Draws the badge. The level must be one that the mouth can show.
    pub fn render_svg(&self, name: &str, uv: i64, rv: i64, rank: i64) -> (svg: String)
        requires
            1 <= rank <= 10,
        ensures
            svg@ == self.rendering(name@, uv as int, rv as int, rank as int),
    {
        let tinted = replace(SVG_HEADER, "#fill_white#", self.fill_white.as_str());
        let mut content = replace(tinted.as_str(), "#fill_black#", self.fill_black.as_str());
        let ghost opening = content@;
        let mut i: i64 = 0;
        assert(content@ =~= opening + bars(rank as int, 0));
        while i < BARS
            invariant
                0 <= i <= BARS,
                content@ == opening + bars(rank as int, i as int),
            decreases BARS - i,
        {
            let ghost before = content@;
            content.append("<rect ");
            content.append(
                if i < rank {
                    BAR_FILLED
                } else {
                    BAR_EMPTY
                },
            );
            content.append(" x=\"");
            push_decimal(&mut content, 35 + 4 * i);
            content.append(".5\" y=\"72.5\" width=\"3\" height=\"6\" rx=\"1\" />");
            assert(content@ =~= before + bar(rank as int, i as int));
            assert(content@ =~= opening + bars(rank as int, i + 1));
            i = i + 1;
        }
        content.append(SVG_FOOTER);
        assert(content@ =~= self.face(rank as int));
        if self.with_border {
            let framed = replace(content.as_str(), "#svg_viewport#", VIEWPORT_BORDERED);
            let filled = fill_border(name, uv, rv, rank);
            replace(framed.as_str(), "#svg_border#", filled.as_str())
        } else {
            replace(content.as_str(), "#svg_viewport#", VIEWPORT_BARE)
        }
    }
}

/// Fills the site's name and figures into the frame.
fn fill_border(name: &str, uv: i64, rv: i64, rank: i64) -> (filled: String)
    ensures
        filled@ == border(name@, uv as int, rv as int, rank as int),
{
    let named = replace(SVG_BORDER, "#site_name#", name);
    let uv_text = crate::text::decimal(uv);
    let with_uv = replace(named.as_str(), "#site_uv#", uv_text.as_str());
    let rv_text = crate::text::decimal(rv);
    let with_rv = replace(with_uv.as_str(), "#site_referrer#", rv_text.as_str());
    let rank_text = crate::text::decimal(rank);
    replace(with_rv.as_str(), "#site_rank#", rank_text.as_str())
}

} // verus!
