use vstd::prelude::*;
use vstd::string::*;

verus! {

/// Whether `c` is one of the octal digits '0' through '7'.
pub open spec fn is_octal_digit(c: char) -> bool {
    48 <= c as int && c as int <= 55
}

/// The numeric value of an octal digit character.
pub open spec fn octal_char_val(c: char) -> int {
    c as int - 48
}

/// A permission string is exactly three octal digits, as in "644" or "755".
pub open spec fn valid_permissions(s: Seq<char>) -> bool {
    s.len() == 3 && forall|i: int| 0 <= i < 3 ==> is_octal_digit(#[trigger] s[i])
}

/// Check that a permission string is exactly three octal digits.
pub fn is_valid_permissions(permissions: &str) -> (r: bool)
    ensures
        r == valid_permissions(permissions@),
{
    let n: usize = permissions.unicode_len();
    if n != 3 {
        return false;
    }
    let d0 = octal_digit(permissions.get_char(0));
    let d1 = octal_digit(permissions.get_char(1));
    let d2 = octal_digit(permissions.get_char(2));
    d0.is_some() && d1.is_some() && d2.is_some()
}

/// The numeric value of one octal digit character, or `None` for any other
/// character.
pub fn octal_digit(c: char) -> (r: Option<u32>)
    ensures
        r is Some <==> is_octal_digit(c),
        r matches Some(v) ==> v == octal_char_val(c) && v < 8,
{
    match c {
        '0' => Some(0),
        '1' => Some(1),
        '2' => Some(2),
        '3' => Some(3),
        '4' => Some(4),
        '5' => Some(5),
        '6' => Some(6),
        '7' => Some(7),
        _ => None,
    }
}

/// Parse a three-octal-digit permission string into the owner, group and
/// others digits; `None` exactly when the string is not of that shape.
pub fn parse_permissions(s: &str) -> (r: Option<(u32, u32, u32)>)
    ensures
        r is Some <==> valid_permissions(s@),
        r matches Some(t) ==> {
            &&& t.0 == octal_char_val(s@[0])
            &&& t.1 == octal_char_val(s@[1])
            &&& t.2 == octal_char_val(s@[2])
            &&& t.0 < 8
            &&& t.1 < 8
            &&& t.2 < 8
        },
{
    let n: usize = s.unicode_len();
    if n != 3 {
        return None;
    }
    let d0 = octal_digit(s.get_char(0));
    let d1 = octal_digit(s.get_char(1));
    let d2 = octal_digit(s.get_char(2));
    match (d0, d1, d2) {
        (Some(a), Some(b), Some(c)) => Some((a, b, c)),
        _ => None,
    }
}

/// The owner digit of a nine-bit octal mode.
pub open spec fn mode_user(m: u32) -> u32 {
    (m / 64) % 8
}

/// The group digit of a nine-bit octal mode.
pub open spec fn mode_group(m: u32) -> u32 {
    (m / 8) % 8
}

/// The others digit of a nine-bit octal mode.
pub open spec fn mode_others(m: u32) -> u32 {
    m % 8
}

/// Whether a permission digit grants reading (bit 4).
pub open spec fn grants_read(p: u32) -> bool {
    (p / 4) % 2 == 1
}

/// Whether a permission digit grants writing (bit 2).
pub open spec fn grants_write(p: u32) -> bool {
    (p / 2) % 2 == 1
}

/// The read rule: the owner digit applies to the owner, the others digit
/// to everyone else; group digits are stored but never consulted.
pub open spec fn spec_can_read(owner: i64, user_perms: u32, others_perms: u32, requester: i64) -> bool {
    if owner == requester {
        grants_read(user_perms)
    } else {
        grants_read(others_perms)
    }
}

/// The write rule, analogous to the read rule.
pub open spec fn spec_can_write(owner: i64, user_perms: u32, others_perms: u32, requester: i64) -> bool {
    if owner == requester {
        grants_write(user_perms)
    } else {
        grants_write(others_perms)
    }
}

/// Decide the read gate.
pub fn can_read(owner: i64, user_perms: u32, others_perms: u32, requester: i64) -> (r: bool)
    ensures
        r == spec_can_read(owner, user_perms, others_perms, requester),
{
    if owner == requester {
        (user_perms / 4) % 2 == 1
    } else {
        (others_perms / 4) % 2 == 1
    }
}

/// Decide the write gate.
pub fn can_write(owner: i64, user_perms: u32, others_perms: u32, requester: i64) -> (r: bool)
    ensures
        r == spec_can_write(owner, user_perms, others_perms, requester),
{
    if owner == requester {
        (user_perms / 2) % 2 == 1
    } else {
        (others_perms / 2) % 2 == 1
    }
}

/// The "rwx" triple for one permission digit.
pub open spec fn rwx_chars(p: u32) -> Seq<char> {
    seq![
        if grants_read(p) { 'r' } else { '-' },
        if grants_write(p) { 'w' } else { '-' },
        if p % 2 == 1 { 'x' } else { '-' },
    ]
}

/// The ten-character unix-style permission string, as in "drwxr-xr-x".
pub open spec fn formatted_permissions(u: u32, g: u32, o: u32, is_dir: bool) -> Seq<char> {
    seq![if is_dir { 'd' } else { '-' }] + rwx_chars(u) + rwx_chars(g) + rwx_chars(o)
}

fn append_rwx(out: &mut String, p: u32)
    ensures
        final(out)@ == old(out)@ + rwx_chars(p),
{
    out.append(if (p / 4) % 2 == 1 { "r" } else { "-" });
    out.append(if (p / 2) % 2 == 1 { "w" } else { "-" });
    out.append(if p % 2 == 1 { "x" } else { "-" });
    proof {
        reveal_strlit("r");
        reveal_strlit("w");
        reveal_strlit("x");
        reveal_strlit("-");
        assert(final(out)@ =~= old(out)@ + rwx_chars(p));
    }
}

/// Render a permission triple in the unix style, "drwxr-xr-x".
pub fn format_permissions(user_perms: u32, group_perms: u32, others_perms: u32, is_directory: bool) -> (r: String)
    ensures
        r@ == formatted_permissions(user_perms, group_perms, others_perms, is_directory),
{
    let mut out = String::new();
    out.append(if is_directory { "d" } else { "-" });
    append_rwx(&mut out, user_perms);
    append_rwx(&mut out, group_perms);
    append_rwx(&mut out, others_perms);
    proof {
        reveal_strlit("d");
        reveal_strlit("-");
        assert(out@ =~= formatted_permissions(user_perms, group_perms, others_perms, is_directory));
    }
    out
}

} // verus!
