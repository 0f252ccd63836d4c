//! Text utilities: character-exact string comparison, conversion to the
//! native zero-terminated wide-character form, decimal rendering of small
//! numbers, and lowercasing.

use vstd::prelude::*;

verus! {

/// Character-by-character string equality.
pub fn str_eq(a: &str, b: &str) -> (r: bool)
    ensures
        r == (a@ == b@),
{
    let n = a.unicode_len();
    if n != b.unicode_len() {
        proof {
            if a@ == b@ {
                assert(a@.len() == b@.len());
            }
        }
        return false;
    }
    let mut i: usize = 0;
    while i < n
        invariant
            n == a@.len(),
            n == b@.len(),
            i <= n,
            forall|j: int| 0 <= j < i ==> a@[j] == b@[j],
        decreases n - i,
    {
        if a.get_char(i) != b.get_char(i) {
            proof {
                if a@ == b@ {
                    assert(a@[i as int] == b@[i as int]);
                }
            }
            return false;
        }
        i += 1;
    }
    proof {
        assert(a@ =~= b@);
    }
    true
}

/// The UTF-16 code units of one character: one unit below 0x10000, a
/// surrogate pair above.
pub open spec fn utf16_units(c: char) -> Seq<u16> {
    let cp = c as u32;
    if cp < 0x10000 {
        seq![cp as u16]
    } else {
        seq![
            (0xD800 + ((cp - 0x10000) / 0x400)) as u16,
            (0xDC00 + ((cp - 0x10000) % 0x400)) as u16,
        ]
    }
}

/// The UTF-16 encoding of a character sequence.
pub open spec fn utf16_encode(s: Seq<char>) -> Seq<u16>
    decreases s.len(),
{
    if s.len() == 0 {
        Seq::empty()
    } else {
        utf16_encode(s.drop_last()) + utf16_units(s.last())
    }
}

/// Convert text to the OS's zero-terminated wide-character representation.
pub fn wstring(text: &str) -> (r: Vec<u16>)
    ensures
        r@ == utf16_encode(text@).push(0u16),
{
    let n = text.unicode_len();
    let mut out: Vec<u16> = Vec::new();
    let mut i: usize = 0;
    while i < n
        invariant
            n == text@.len(),
            i <= n,
            out@ == utf16_encode(text@.subrange(0, i as int)),
        decreases n - i,
    {
        let c = text.get_char(i);
        let cp = c as u32;
        if cp < 0x10000 {
            out.push(cp as u16);
        } else {
            let rest = cp - 0x10000;
            out.push((0xD800 + (rest / 0x400)) as u16);
            out.push((0xDC00 + (rest % 0x400)) as u16);
        }
        proof {
            let pre = text@.subrange(0, i as int);
            let cur = text@.subrange(0, i + 1);
            assert(cur.drop_last() =~= pre);
            assert(cur.last() == c);
            assert(out@ =~= utf16_encode(pre) + utf16_units(c));
        }
        i += 1;
    }
    proof {
        assert(text@.subrange(0, n as int) =~= text@);
    }
    out.push(0u16);
    out
}

/// The decimal digit characters of a number, most significant first.
pub open spec fn dec_digits(n: nat) -> Seq<char>
    decreases n,
{
    if n < 10 {
        seq![digit_char(n)]
    } else {
        dec_digits(n / 10).push(digit_char(n % 10))
    }
}

/// The character for one decimal digit.
pub open spec fn digit_char(d: nat) -> char {
    if d == 0 {
        '0'
    } else if d == 1 {
        '1'
    } else if d == 2 {
        '2'
    } else if d == 3 {
        '3'
    } else if d == 4 {
        '4'
    } else if d == 5 {
        '5'
    } else if d == 6 {
        '6'
    } else if d == 7 {
        '7'
    } else if d == 8 {
        '8'
    } else {
        '9'
    }
}

/// A one-character string slice for a decimal digit.
fn digit_str(d: u8) -> (r: &'static str)
    requires
        d < 10,
    ensures
        r@ == seq![digit_char(d as nat)],
{
    proof {
        reveal_strlit("0");
        reveal_strlit("1");
        reveal_strlit("2");
        reveal_strlit("3");
        reveal_strlit("4");
        reveal_strlit("5");
        reveal_strlit("6");
        reveal_strlit("7");
        reveal_strlit("8");
        reveal_strlit("9");
    }
    match d {
        0 => "0",
        1 => "1",
        2 => "2",
        3 => "3",
        4 => "4",
        5 => "5",
        6 => "6",
        7 => "7",
        8 => "8",
        _ => "9",
    }
}

/// Render a byte as its decimal digits.
pub fn u8_to_dec(v: u8) -> (s: String)
    ensures
        s@ == dec_digits(v as nat),
    decreases v,
{
    if v < 10 {
        String::from_str(digit_str(v))
    } else {
        let mut s = u8_to_dec(v / 10);
        s.append(digit_str(v % 10));
        s
    }
}

/// The executable file name at the end of a path: the suffix after the
/// last backslash, or the whole text when it has none.
pub open spec fn basename_of(s: Seq<char>) -> Seq<char>
    decreases s.len(),
{
    if s.len() == 0 {
        s
    } else if s.last() == '\\' {
        Seq::empty()
    } else {
        basename_of(s.drop_last()).push(s.last())
    }
}

/// A text without backslashes is its own basename.
proof fn lemma_basename_no_slash(s: Seq<char>)
    requires
        forall|j: int| 0 <= j < s.len() ==> s[j] != '\\',
    ensures
        basename_of(s) == s,
    decreases s.len(),
{
    if s.len() > 0 {
        lemma_basename_no_slash(s.drop_last());
        assert(basename_of(s.drop_last()).push(s.last()) =~= s);
    }
}

/// The basename is what follows the last backslash.
proof fn lemma_basename_after_slash(s: Seq<char>, k: int)
    requires
        0 <= k < s.len(),
        s[k] == '\\',
        forall|j: int| k < j < s.len() ==> s[j] != '\\',
    ensures
        basename_of(s) == s.subrange(k + 1, s.len() as int),
    decreases s.len(),
{
    if k == s.len() - 1 {
        assert(s.last() == '\\');
        assert(s.subrange(k + 1, s.len() as int) =~= Seq::<char>::empty());
    } else {
        lemma_basename_after_slash(s.drop_last(), k);
        assert(s.drop_last().subrange(k + 1, s.len() - 1) =~= s.subrange(k + 1, s.len() - 1));
        assert(basename_of(s.drop_last()).push(s.last()) =~= s.subrange(k + 1, s.len() as int));
    }
}

/// The lowercased executable basename of a module path: what the hotkey
/// registry compares a record's process field against.
pub fn process_name_from_path(path: &str) -> (r: String)
    ensures
        r@ == lower_of(basename_of(path@)),
{
    let n = path.unicode_len();
    let mut cut: usize = 0;
    let mut found = false;
    let mut i: usize = 0;
    while i < n
        invariant
            n == path@.len(),
            i <= n,
            found ==> 0 < cut <= i && path@[cut - 1] == '\\' && forall|j: int|
                cut <= j < i ==> path@[j] != '\\',
            !found ==> cut == 0 && forall|j: int| 0 <= j < i ==> path@[j] != '\\',
        decreases n - i,
    {
        if path.get_char(i) == '\\' {
            cut = i + 1;
            found = true;
        }
        i += 1;
    }
    proof {
        if found {
            lemma_basename_after_slash(path@, cut - 1);
        } else {
            lemma_basename_no_slash(path@);
            assert(path@.subrange(0, n as int) =~= path@);
        }
        assert(path@.subrange(cut as int, n as int) == basename_of(path@));
    }
    let base = path.substring_char(cut, n);
    lowercase(base)
}

/// The directory of shortcut definition files, under the user's home.
pub fn save_folder_path(home_drive: &str, home_path: &str) -> (r: String)
    ensures
        r@ == home_drive@ + home_path@ + "\\usnip"@,
{
    let mut r = home_drive.to_owned();
    r.append(home_path);
    r.append("\\usnip");
    r
}

/// What lowercasing yields; the result depends on the characters alone.
pub uninterp spec fn lower_of(s: Seq<char>) -> Seq<char>;

/// Relies on str::to_lowercase: Unicode lowercasing, a pure function of
/// the input characters; an empty input stays empty.
#[verifier::external_body]
pub fn lowercase(s: &str) -> (r: String)
    ensures
        r@ == lower_of(s@),
        s@.len() == 0 ==> r@.len() == 0,
{
    s.to_lowercase()
}

} // verus!
