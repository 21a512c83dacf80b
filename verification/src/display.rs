use vstd::prelude::*;
use vstd::string::StringExecFns;
use crate::features::{entropy, entropy_of};
use crate::grid::Node;
use crate::tile::{decode, decode_spec, Tile};

verus! {

/// The display name of a tile.
pub open spec fn tile_name(t: Tile) -> Seq<char> {
    match t {
        Tile::Water => "Water"@,
        Tile::Sand => "Sand"@,
        Tile::Grass => "Grass"@,
        Tile::Tree => "Tree"@,
        Tile::Rock => "Rock"@,
    }
}

/// The character of a decimal digit.
pub open spec fn dec_digit(d: int) -> Seq<char> {
    if d == 0 {
        "0"@
    } else if d == 1 {
        "1"@
    } else if d == 2 {
        "2"@
    } else if d == 3 {
        "3"@
    } else if d == 4 {
        "4"@
    } else if d == 5 {
        "5"@
    } else if d == 6 {
        "6"@
    } else if d == 7 {
        "7"@
    } else if d == 8 {
        "8"@
    } else {
        "9"@
    }
}

/// The decimal representation of a number, most significant digit first.
pub open spec fn dec_rep(n: nat) -> Seq<char>
    decreases n,
{
    if n < 10 {
        dec_digit(n as int)
    } else {
        dec_rep(n / 10) + dec_digit((n % 10) as int)
    }
}

/// The token a cell is rendered as: the name of its tile if it is collapsed,
/// an `S` with its entropy while it is still a superposition, and `XX` for a
/// contradiction.
pub open spec fn token_of(cell: Seq<usize>) -> Seq<char> {
    if entropy_of(cell) == 0 {
        "XX"@
    } else if decode_spec(cell) is Some {
        tile_name(decode_spec(cell)->Some_0)
    } else {
        "S"@ + dec_rep(entropy_of(cell) as nat)
    }
}

/// The one-character string of a decimal digit.
fn digit_str(d: usize) -> (r: &'static str)
    requires
        d < 10,
    ensures
        r@ == dec_digit(d as int),
{
    match d {
        0 => "0",
        1 => "1",
        2 => "2",
        3 => "3",
        4 => "4",
        5 => "5",
        6 => "6",
        7 => "7",
        8 => "8",
        _ => "9",
    }
}

/// Append the decimal representation of `n`.
pub fn push_decimal(s: &mut String, n: usize)
    ensures
        final(s)@ == old(s)@ + dec_rep(n as nat),
    decreases n,
{
    if n < 10 {
        s.append(digit_str(n));
    } else {
        push_decimal(s, n / 10);
        s.append(digit_str(n % 10));
        proof {
            assert(s@ =~= old(s)@ + dec_rep(n as nat));
        }
    }
}

impl Node {
    /// Render this cell as its display token.
    pub fn token(&self) -> (s: String)
        requires
            self.wf(),
        ensures
            s@ == token_of(self@),
    {
        let e = entropy(&self.data);
        if e == 0 {
            return "XX".to_owned();
        }
        match decode(&self.data) {
            Ok(t) => {
                match t {
                    Tile::Water => "Water".to_owned(),
                    Tile::Sand => "Sand".to_owned(),
                    Tile::Grass => "Grass".to_owned(),
                    Tile::Tree => "Tree".to_owned(),
                    Tile::Rock => "Rock".to_owned(),
                }
            },
            Err(_) => {
                let mut s = "S".to_owned();
                push_decimal(&mut s, e);
                s
            },
        }
    }
}

} // verus!
