//! Asset identifiers. An asset is known by its UUID, which the library
//! holds as one 128-bit number. The `uuid` crate reads it from text; its
//! text is written here.

use vstd::prelude::*;
use vstd::string::*;

verus! {

/// The lower-case character for one hexadecimal digit.
pub open spec fn hex_digit_of(n: u128) -> char {
    "0123456789abcdef"@[n as int]
}

/// How many hyphens stand before position `i` of a hyphenated UUID.
pub open spec fn hyphens_before(i: int) -> int {
    if i > 23 {
        4
    } else if i > 18 {
        3
    } else if i > 13 {
        2
    } else if i > 8 {
        1
    } else {
        0
    }
}

/// Whether position `i` of a hyphenated UUID holds a hyphen.
pub open spec fn is_hyphen_position(i: int) -> bool {
    i == 8 || i == 13 || i == 18 || i == 23
}

/// The `k`-th of the 32 hexadecimal digits of `id`, the most significant
/// being the first.
pub open spec fn uuid_digit_of(id: u128, k: int) -> char {
    hex_digit_of((id >> ((4 * (31 - k)) as u128)) & 0xf)
}

/// The hyphenated lower-case text of the UUID whose 128-bit value is `id`:
/// its 32 hexadecimal digits, most significant first, in groups of 8, 4, 4,
/// 4 and 12 with a hyphen between two groups.
pub open spec fn uuid_text(id: u128) -> Seq<char> {
    Seq::new(
        UUID_LENGTH as nat,
        |i: int|
            if is_hyphen_position(i) {
                '-'
            } else {
                uuid_digit_of(id, i - hyphens_before(i))
            },
    )
}

/// The 128-bit value of the UUID that the `uuid` crate reads from `text`,
/// or `None` where it reads none.
pub uninterp spec fn uuid_value(text: Seq<char>) -> Option<u128>;

fn hex_digit(n: u128) -> (r: &'static str)
    requires
        n < 16,
    ensures
        r@ == seq![hex_digit_of(n)],
{
    proof {
        reveal_strlit("0123456789abcdef");
        reveal_strlit("0");
        reveal_strlit("1");
        reveal_strlit("2");
        reveal_strlit("3");
        reveal_strlit("4");
        reveal_strlit("5");
        reveal_strlit("6");
        reveal_strlit("7");
        reveal_strlit("8");
        reveal_strlit("9");
        reveal_strlit("a");
        reveal_strlit("b");
        reveal_strlit("c");
        reveal_strlit("d");
        reveal_strlit("e");
        reveal_strlit("f");
    }
    let r = if n == 0 {
        "0"
    } else if n == 1 {
        "1"
    } else if n == 2 {
        "2"
    } else if n == 3 {
        "3"
    } else if n == 4 {
        "4"
    } else if n == 5 {
        "5"
    } else if n == 6 {
        "6"
    } else if n == 7 {
        "7"
    } else if n == 8 {
        "8"
    } else if n == 9 {
        "9"
    } else if n == 10 {
        "a"
    } else if n == 11 {
        "b"
    } else if n == 12 {
        "c"
    } else if n == 13 {
        "d"
    } else if n == 14 {
        "e"
    } else {
        "f"
    };
    assert(r@ =~= seq![hex_digit_of(n)]);
    r
}

/// Writes the UUID whose 128-bit value is `id` as hyphenated lower-case
/// text.
pub fn hyphenated(id: u128) -> (text: String)
    ensures
        text@ == uuid_text(id),
{
    let mut text = String::new();
    let mut i: usize = 0;
    let mut k: u32 = 0;
    while i < UUID_LENGTH
        invariant
            i <= UUID_LENGTH,
            k == i - hyphens_before(i as int),
            text@ == uuid_text(id).take(i as int),
        decreases UUID_LENGTH - i,
    {
        let ghost before = text@;
        if i == 8 || i == 13 || i == 18 || i == 23 {
            proof {
                reveal_strlit("-");
            }
            text.append("-");
            assert(text@ =~= uuid_text(id).take(i + 1));
        } else {
            let shift: u32 = 4 * (31 - k);
            let nibble: u128 = (id >> shift) & 0xf;
            assert(nibble < 16) by (bit_vector)
                requires
                    nibble == (id >> shift) & 0xf,
            ;
            text.append(hex_digit(nibble));
            assert(text@ =~= uuid_text(id).take(i + 1));
            k = k + 1;
        }
        i = i + 1;
    }
    assert(uuid_text(id).take(UUID_LENGTH as int) =~= uuid_text(id));
    text
}

/// `Uuid::try_parse` followed by `Uuid::as_u128`: the value named by
/// [`uuid_value`], `None` standing for every parse error.
#[verifier::external_body]
fn parse_uuid(text: &str) -> (id: Option<u128>)
    ensures
        id == uuid_value(text@),
{
    uuid::Uuid::try_parse(text).ok().map(|uuid| uuid.as_u128())
}

/// The number of characters of a hyphenated UUID.
pub const UUID_LENGTH: usize = 36;

/// The asset that a preview file belongs to: the UUID that its name starts
/// with, as in `<uuid>-preview.jpeg`.
pub open spec fn id_in_name(name: Seq<char>) -> Option<u128> {
    if name.len() >= UUID_LENGTH {
        uuid_value(name.take(UUID_LENGTH as int))
    } else {
        None
    }
}

/// Reads the asset id that the name of a preview file starts with. `None`
/// where the name is shorter than a UUID or does not start with one.
pub fn extract_uuid_from_preview_filename(filename: &str) -> (id: Option<u128>)
    ensures
        id == id_in_name(filename@),
{
    if filename.unicode_len() < UUID_LENGTH {
        return None;
    }
    parse_uuid(filename.substring_char(0, UUID_LENGTH))
}

} // verus!
