use vstd::prelude::*;

verus! {

/// A tile face: the three numbered suits (1 to 9) and the white board.
#[derive(Clone, Copy, Debug, PartialEq, Eq, Structural)]
pub enum Majiang {
    Wan(u8),
    Tiao(u8),
    Bin(u8),
    BaiBan,
}

/// Every face exists four times; a card id `c` shows the face of kind `c / 4`.
pub open spec fn kind(card: u8) -> int {
    card as int / 4
}

/// Kinds that open a suit (a 1 of wan, tiao or bin).
pub open spec fn is_begin_kind(k: int) -> bool {
    k == 0 || k == 9 || k == 18
}

/// Kinds that close a suit (a 9 of wan, tiao or bin).
pub open spec fn is_end_kind(k: int) -> bool {
    k == 8 || k == 17 || k == 26
}

/// The white-board kind.
pub open spec fn is_bai_kind(k: int) -> bool {
    k == 27
}

/// The character of a decimal digit.
pub open spec fn digit_char(d: nat) -> char {
    (48 + d) as char
}

/// The decimal notation of a natural number.
pub open spec fn decimal(n: nat) -> Seq<char>
    decreases n,
{
    if n < 10 {
        seq![digit_char(n)]
    } else {
        decimal(n / 10) + seq![digit_char(n % 10)]
    }
}

impl Majiang {
    /// The text shown for a face: its number and suit letter, or `Bai`.
    pub open spec fn spec_format(self) -> Seq<char> {
        match self {
            Majiang::Wan(i) => decimal(i as nat) + seq!['-', 'W'],
            Majiang::Tiao(i) => decimal(i as nat) + seq!['-', 'T'],
            Majiang::Bin(i) => decimal(i as nat) + seq!['-', 'B'],
            Majiang::BaiBan => seq!['B', 'a', 'i'],
        }
    }

    pub fn format(card: &Majiang) -> (r: String)
        ensures
            r@ == card.spec_format(),
    {
        match card {
            Majiang::Wan(i) => {
                let mut s = decimal_string(*i);
                proof {
                    reveal_strlit("-W");
                }
                s.append("-W");
                s
            },
            Majiang::Tiao(i) => {
                let mut s = decimal_string(*i);
                proof {
                    reveal_strlit("-T");
                }
                s.append("-T");
                s
            },
            Majiang::Bin(i) => {
                let mut s = decimal_string(*i);
                proof {
                    reveal_strlit("-B");
                }
                s.append("-B");
                s
            },
            Majiang::BaiBan => {
                proof {
                    reveal_strlit("Bai");
                }
                String::from_str("Bai")
            },
        }
    }

    pub fn is_bai_bang(card: u8) -> (r: bool)
        ensures
            r == is_bai_kind(kind(card)),
    {
        card / 4 == 27
    }

    pub fn begin_card(card: u8) -> (r: bool)
        ensures
            r == is_begin_kind(kind(card)),
    {
        let ix = card / 4;
        ix == 0 || ix == 9 || ix == 18
    }

    pub fn end_card(card: u8) -> (r: bool)
        ensures
            r == is_end_kind(kind(card)),
    {
        let ix = card / 4;
        ix == 8 || ix == 17 || ix == 26
    }
}

/// The one-character text of a decimal digit.
fn digit_str(d: u8) -> (r: &'static str)
    requires
        d < 10,
    ensures
        r@ == seq![digit_char(d as nat)],
{
    match d {
        0 => {
            proof {
                reveal_strlit("0");
            }
            "0"
        },
        1 => {
            proof {
                reveal_strlit("1");
            }
            "1"
        },
        2 => {
            proof {
                reveal_strlit("2");
            }
            "2"
        },
        3 => {
            proof {
                reveal_strlit("3");
            }
            "3"
        },
        4 => {
            proof {
                reveal_strlit("4");
            }
            "4"
        },
        5 => {
            proof {
                reveal_strlit("5");
            }
            "5"
        },
        6 => {
            proof {
                reveal_strlit("6");
            }
            "6"
        },
        7 => {
            proof {
                reveal_strlit("7");
            }
            "7"
        },
        8 => {
            proof {
                reveal_strlit("8");
            }
            "8"
        },
        _ => {
            proof {
                reveal_strlit("9");
            }
            "9"
        },
    }
}

/// The decimal notation of a byte, as `{}` prints it.
pub fn decimal_string(n: u8) -> (r: String)
    ensures
        r@ == decimal(n as nat),
{
    proof {
        reveal_with_fuel(decimal, 3);
    }
    let mut s = String::new();
    if n >= 100 {
        s.append(digit_str(n / 100));
    }
    if n >= 10 {
        s.append(digit_str((n / 10) % 10));
    }
    s.append(digit_str(n % 10));
    proof {
        if n >= 100 {
            assert(decimal((n / 10) as nat) == decimal((n / 100) as nat) + seq![
                digit_char(((n / 10) % 10) as nat),
            ]);
        }
    }
    assert(s@ =~= decimal(n as nat));
    s
}

/// The face of the card with id `id` in a full set of 112 cards: four of each wan, tiao and
/// bin from 1 to 9, then four white boards.
pub open spec fn face_of(id: int) -> Majiang {
    if id < 36 {
        Majiang::Wan((id / 4 + 1) as u8)
    } else if id < 72 {
        Majiang::Tiao(((id - 36) / 4 + 1) as u8)
    } else if id < 108 {
        Majiang::Bin(((id - 72) / 4 + 1) as u8)
    } else {
        Majiang::BaiBan
    }
}

/// The faces of a full set of cards, by card id.
pub open spec fn standard_faces() -> Seq<Majiang> {
    Seq::new(112, |i: int| face_of(i))
}

/// The face of a card id of a full set.
pub fn face_of_id(id: u8) -> (r: Majiang)
    requires
        id < 112,
    ensures
        r == face_of(id as int),
{
    if id < 36 {
        Majiang::Wan(id / 4 + 1)
    } else if id < 72 {
        Majiang::Tiao((id - 36) / 4 + 1)
    } else if id < 108 {
        Majiang::Bin((id - 72) / 4 + 1)
    } else {
        Majiang::BaiBan
    }
}

} // verus!
