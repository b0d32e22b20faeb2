use vstd::prelude::*;
use vstd::string::StringExecFns;

verus! {

/// The lowercase hexadecimal digit for a nibble value; values of 16 or more
/// fall back to '0' (callers never pass them).
pub open spec fn hex_char(n: u8) -> char {
    if n == 0 {
        '0'
    } else if n == 1 {
        '1'
    } else if n == 2 {
        '2'
    } else if n == 3 {
        '3'
    } else if n == 4 {
        '4'
    } else if n == 5 {
        '5'
    } else if n == 6 {
        '6'
    } else if n == 7 {
        '7'
    } else if n == 8 {
        '8'
    } else if n == 9 {
        '9'
    } else if n == 10 {
        'a'
    } else if n == 11 {
        'b'
    } else if n == 12 {
        'c'
    } else if n == 13 {
        'd'
    } else if n == 14 {
        'e'
    } else if n == 15 {
        'f'
    } else {
        '0'
    }
}

/// Lowercase hex encoding of a byte sequence: two digits per byte, high
/// nibble first.
pub open spec fn spec_hex(bytes: Seq<u8>) -> Seq<char>
    decreases bytes.len(),
{
    if bytes.len() == 0 {
        Seq::empty()
    } else {
        spec_hex(bytes.drop_last()) + seq![
            hex_char(bytes.last() / 16),
            hex_char(bytes.last() % 16),
        ]
    }
}

fn hex_digit(n: u8) -> (r: &'static str)
    requires
        n < 16,
    ensures
        r@ == seq![hex_char(n)],
{
    let r: &'static str = if n == 0 {
        proof {
            reveal_strlit("0");
        }
        "0"
    } else if n == 1 {
        proof {
            reveal_strlit("1");
        }
        "1"
    } else if n == 2 {
        proof {
            reveal_strlit("2");
        }
        "2"
    } else if n == 3 {
        proof {
            reveal_strlit("3");
        }
        "3"
    } else if n == 4 {
        proof {
            reveal_strlit("4");
        }
        "4"
    } else if n == 5 {
        proof {
            reveal_strlit("5");
        }
        "5"
    } else if n == 6 {
        proof {
            reveal_strlit("6");
        }
        "6"
    } else if n == 7 {
        proof {
            reveal_strlit("7");
        }
        "7"
    } else if n == 8 {
        proof {
            reveal_strlit("8");
        }
        "8"
    } else if n == 9 {
        proof {
            reveal_strlit("9");
        }
        "9"
    } else if n == 10 {
        proof {
            reveal_strlit("a");
        }
        "a"
    } else if n == 11 {
        proof {
            reveal_strlit("b");
        }
        "b"
    } else if n == 12 {
        proof {
            reveal_strlit("c");
        }
        "c"
    } else if n == 13 {
        proof {
            reveal_strlit("d");
        }
        "d"
    } else if n == 14 {
        proof {
            reveal_strlit("e");
        }
        "e"
    } else {
        proof {
            reveal_strlit("f");
        }
        "f"
    };
    proof {
        assert(r@ =~= seq![hex_char(n)]);
    }
    r
}

/// Encodes a byte slice as a lowercase hexadecimal string, two digits per
/// byte, high nibble first.
pub fn hex_encode(bytes: &[u8]) -> (r: String)
    ensures
        r@ == spec_hex(bytes@),
{
    let mut r = String::new();
    let mut i: usize = 0;
    while i < bytes.len()
        invariant
            i <= bytes@.len(),
            r@ == spec_hex(bytes@.take(i as int)),
        decreases bytes@.len() - i,
    {
        let b: u8 = bytes[i];
        r.append(hex_digit(b / 16));
        r.append(hex_digit(b % 16));
        proof {
            let pre = bytes@.take(i as int + 1);
            assert(pre.drop_last() =~= bytes@.take(i as int));
            assert(pre.last() == b);
            assert(r@ =~= spec_hex(pre));
        }
        i += 1;
    }
    proof {
        assert(bytes@.take(bytes@.len() as int) =~= bytes@);
    }
    r
}

} // verus!
