//! Rendering of a glyph grid as ANSI truecolor text.

use vstd::prelude::*;
use vstd::string::*;

verus! {

/// The ten decimal digits in order.
pub open spec fn digits() -> Seq<char> {
    seq!['0', '1', '2', '3', '4', '5', '6', '7', '8', '9']
}

/// The decimal numeral of `n`, without leading zeros.
pub open spec fn decimal(n: nat) -> Seq<char>
    decreases n,
{
    if n < 10 {
        seq![digits()[n as int]]
    } else {
        decimal(n / 10).push(digits()[(n % 10) as int])
    }
}

/// What opens a truecolor foreground escape, up to the red channel.
pub open spec fn color_prefix() -> Seq<char> {
    seq!['\x1b', '[', '3', '8', ';', '2', ';']
}

/// The escape that puts the terminal back to its default colours.
pub open spec fn color_reset() -> Seq<char> {
    seq!['\x1b', '[', '0', 'm']
}

/// `text` wrapped so that a terminal shows it in `color`: the escape
/// `ESC[38;2;R;G;Bm`, the text, and the reset `ESC[0m`.
pub open spec fn colorized(text: Seq<char>, color: (u8, u8, u8)) -> Seq<char> {
    color_prefix() + decimal(color.0 as nat) + seq![';'] + decimal(color.1 as nat) + seq![';']
        + decimal(color.2 as nat) + seq!['m'] + text + color_reset()
}

/// The text of a grid: each cell colorized, in order, and a line break after
/// every cell whose position, counted from one, is a multiple of `map_size`.
pub open spec fn rendered(cells: Seq<(Seq<char>, (u8, u8, u8))>, map_size: nat) -> Seq<char>
    decreases cells.len(),
{
    if cells.len() == 0 {
        Seq::empty()
    } else {
        rendered(cells.drop_last(), map_size) + colorized(cells.last().0, cells.last().1) + (
        if cells.len() % map_size == 0 {
            seq!['\n']
        } else {
            Seq::empty()
        })
    }
}

/// Appends the one digit `d` to `text`.
fn append_digit(text: &mut String, d: u8)
    requires
        d < 10,
    ensures
        final(text)@ == old(text)@.push(digits()[d as int]),
{
    proof {
        reveal_strlit("0123456789");
    }
    let all = "0123456789";
    assert(all@ =~= digits());
    let at: usize = d as usize;
    let digit = all.substring_ascii(at, at + 1);
    assert(digit@ =~= seq![digits()[d as int]]);
    text.append(digit);
    assert(text@ =~= old(text)@.push(digits()[d as int]));
}

/// Appends the decimal numeral of `n` to `text`.
fn append_decimal(text: &mut String, n: u8)
    ensures
        final(text)@ == old(text)@ + decimal(n as nat),
{
    if n >= 100 {
        append_digit(text, n / 100);
    }
    if n >= 10 {
        append_digit(text, (n / 10) % 10);
    }
    append_digit(text, n % 10);
    proof {
        reveal_with_fuel(decimal, 3);
        assert(text@ =~= old(text)@ + decimal(n as nat));
    }
}

/// Wraps `character` in the escapes that colour it.
pub fn colorize(character: &str, color: (u8, u8, u8)) -> (text: String)
    ensures
        text@ == colorized(character@, color),
{
    proof {
        reveal_strlit("\x1b[38;2;");
        reveal_strlit(";");
        reveal_strlit("m");
        reveal_strlit("\x1b[0m");
    }
    let mut text = String::from_str("\x1b[38;2;");
    assert(text@ =~= color_prefix());
    append_decimal(&mut text, color.0);
    text.append(";");
    append_decimal(&mut text, color.1);
    text.append(";");
    append_decimal(&mut text, color.2);
    text.append("m");
    text.append(character);
    text.append("\x1b[0m");
    assert(";"@ =~= seq![';']);
    assert("m"@ =~= seq!['m']);
    assert("\x1b[0m"@ =~= color_reset());
    assert(text@ =~= colorized(character@, color));
    text
}

/// Renders `grid` as one string, with a line break after every `map_size`
/// cells.
pub fn render(grid: &Vec<(String, (u8, u8, u8))>, map_size: usize) -> (output: String)
    requires
        map_size > 0,
    ensures
        output@ == rendered(grid.deep_view(), map_size as nat),
{
    let mut output = String::new();
    let mut index: usize = 0;
    while index < grid.len()
        invariant
            index <= grid.len(),
            map_size > 0,
            output@ == rendered(grid.deep_view().take(index as int), map_size as nat),
        decreases grid.len() - index,
    {
        let colored_char = colorize(grid[index].0.as_str(), grid[index].1);
        output.append(colored_char.as_str());
        if (index + 1) % map_size == 0 {
            output.append("\n");
        }
        proof {
            let cells = grid.deep_view();
            let shown = cells.take(index + 1);
            assert(shown.drop_last() =~= cells.take(index as int));
            assert(shown.last() == cells[index as int]);
            reveal_strlit("\n");
            assert("\n"@ =~= seq!['\n']);
            assert(output@ =~= rendered(shown, map_size as nat));
        }
        index += 1;
    }
    assert(grid.deep_view().take(index as int) =~= grid.deep_view());
    output
}

} // verus!
