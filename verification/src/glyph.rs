//! Brightness quantisation: the sum of a pixel's three colour channels
//! selects one of 26 glyphs.

use vstd::prelude::*;
use vstd::string::*;

verus! {

/// Number of channel sums that share one glyph.
pub const BUCKET_WIDTH: u32 = 30;

/// Largest sum that three 8-bit channels can reach.
pub const MAX_CHANNEL_SUM: u32 = 765;

/// The glyphs, ordered from the darkest bucket to the brightest.
pub open spec fn glyph_table() -> Seq<char> {
    seq![
        'i', 'n', 'a', 'b', 'c', 'd', 'e', 'f', 'g', 'h', 'j', 'k', 'l',
        'm', 'o', 'p', 'q', 'r', 's', 't', 'u', 'v', 'w', 'x', 'y', 'z',
    ]
}

/// The glyph that stands for a sum no pixel can have.
pub open spec fn default_glyph() -> char {
    '.'
}

/// The glyph of a channel sum: the table entry at `sum / 30` for sums up to
/// 765, the default glyph beyond.
pub open spec fn glyph_of_sum(sum: nat) -> char {
    if sum <= MAX_CHANNEL_SUM {
        glyph_table()[(sum / (BUCKET_WIDTH as nat)) as int]
    } else {
        default_glyph()
    }
}

/// The brightness of a colour: the sum of its three channels.
pub open spec fn brightness(color: (u8, u8, u8)) -> nat {
    (color.0 + color.1 + color.2) as nat
}

/// Adds up the three channels of a colour.
pub fn channel_sum(color: (u8, u8, u8)) -> (sum: u32)
    ensures
        sum == brightness(color),
        sum <= MAX_CHANNEL_SUM,
{
    let r: u32 = color.0 as u32;
    let g: u32 = color.1 as u32;
    let b: u32 = color.2 as u32;
    r + g + b
}

/// Returns the one-character string that holds the glyph of `sum`.
pub fn glyph_for_sum(sum: u32) -> (glyph: String)
    ensures
        glyph@ == seq![glyph_of_sum(sum as nat)],
{
    if sum > MAX_CHANNEL_SUM {
        proof {
            reveal_strlit(".");
        }
        let glyph = String::from_str(".");
        assert(glyph@ =~= seq![default_glyph()]);
        glyph
    } else {
        proof {
            reveal_strlit("inabcdefghjklmopqrstuvwxyz");
        }
        let table = "inabcdefghjklmopqrstuvwxyz";
        assert(table@ =~= glyph_table());
        let bucket: usize = (sum / BUCKET_WIDTH) as usize;
        let glyph = String::from_str(table.substring_ascii(bucket, bucket + 1));
        assert(glyph@ =~= seq![glyph_of_sum(sum as nat)]);
        glyph
    }
}

/// Every sum that three channels can reach has the glyph that the table
/// holds at `sum / 30`, a letter of the table; the sums from 750 to 765 share
/// the last letter, and every sum beyond 765 has the default glyph.
pub proof fn lemma_glyph_buckets(sum: nat)
    ensures
        sum <= 765 ==> 0 <= sum / 30 < glyph_table().len() && glyph_of_sum(sum)
            == glyph_table()[(sum / 30) as int],
        sum < 30 ==> glyph_of_sum(sum) == 'i',
        750 <= sum <= 765 ==> glyph_of_sum(sum) == 'z',
        sum > 765 ==> glyph_of_sum(sum) == '.',
{
}

/// Sums in the same bucket of thirty have the same glyph.
pub proof fn lemma_same_bucket_same_glyph(a: nat, b: nat)
    requires
        a <= 765,
        b <= 765,
        a / 30 == b / 30,
    ensures
        glyph_of_sum(a) == glyph_of_sum(b),
{
}

} // verus!
