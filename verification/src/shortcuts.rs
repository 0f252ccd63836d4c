//! Shortcut records: parsing definition-file contents into records, the
//! registration lists handed to the OS, and matching fired hotkey events
//! against the loaded set.

use vstd::prelude::*;
use crate::clip_formats::Format;
use crate::utils::{lower_of, lowercase, str_eq};

verus! {

/// Keycode a record falls back to when its keycode field does not parse:
/// the combination is still reserved, but no real key reports this code.
pub const UNSET_KEYCODE: u16 = 0x87;

/// One configured hotkey binding.
pub struct Shortcut {
    /// Unique per loaded set; the OS hotkey identifier.
    pub id: i32,
    /// First file field, kept verbatim.
    pub version: String,
    /// Lowercased executable name the binding is scoped to.
    pub process: String,
    /// Disabled records are registered but never matched.
    pub enabled: bool,
    /// Modifier bitmask of the hotkey.
    pub modifiers: u16,
    /// Virtual key code of the hotkey.
    pub keycode: u16,
    /// How `data` is to be interpreted.
    pub format: Format,
    /// The literal text to inject.
    pub data: String,
}

/// Whether a character is a decimal digit.
pub open spec fn is_digit(c: char) -> bool {
    0x30 <= c as u32 <= 0x39
}

/// The value of one decimal digit character.
pub open spec fn digit_val(c: char) -> nat {
    (c as u32 - 0x30) as nat
}

/// The number denoted by a digit sequence, most significant first.
pub open spec fn dec_val(s: Seq<char>) -> nat
    decreases s.len(),
{
    if s.len() == 0 {
        0
    } else {
        dec_val(s.drop_last()) * 10 + digit_val(s.last())
    }
}

/// The digits of a numeric field: everything after an optional leading
/// plus sign.
pub open spec fn digits_part(s: Seq<char>) -> Seq<char> {
    if s.len() > 0 && s[0] == '+' {
        s.subrange(1, s.len() as int)
    } else {
        s
    }
}

/// What a numeric field parses to: an optional plus sign, then at least
/// one decimal digit, denoting a value that fits; anything else fails.
pub open spec fn spec_parse_u16(s: Seq<char>) -> Option<u16> {
    let d = digits_part(s);
    if d.len() > 0 && (forall|i: int| 0 <= i < d.len() ==> is_digit(d[i])) && dec_val(d) <= 0xFFFF {
        Some(dec_val(d) as u16)
    } else {
        None
    }
}

/// Appending characters to a digit sequence never lowers its value.
proof fn lemma_dec_val_append(p: Seq<char>, rest: Seq<char>)
    ensures
        dec_val(p + rest) >= dec_val(p),
    decreases rest.len(),
{
    if rest.len() == 0 {
        assert(p + rest =~= p);
    } else {
        let t = p + rest;
        assert(t.drop_last() =~= p + rest.drop_last());
        lemma_dec_val_append(p, rest.drop_last());
    }
}

/// Parse a decimal field as the standard library does for `u16`: an
/// optional leading plus sign, then decimal digits, rejecting empty
/// digit runs and values that do not fit.
pub fn parse_u16(s: &str) -> (r: Option<u16>)
    ensures
        r == spec_parse_u16(s@),
{
    let n = s.unicode_len();
    let start: usize = if n > 0 && s.get_char(0) == '+' {
        1
    } else {
        0
    };
    let ghost d = digits_part(s@);
    proof {
        assert(d =~= s@.subrange(start as int, n as int));
    }
    if start == n {
        return None;
    }
    let mut acc: u32 = 0;
    let mut i: usize = start;
    while i < n
        invariant
            n == s@.len(),
            start <= i <= n,
            start < n,
            d == digits_part(s@),
            d == s@.subrange(start as int, n as int),
            acc == dec_val(s@.subrange(start as int, i as int)),
            acc <= 0xFFFF,
            forall|j: int| start <= j < i ==> is_digit(s@[j]),
        decreases n - i,
    {
        let c = s.get_char(i);
        let cp = c as u32;
        if cp < 0x30 || cp > 0x39 {
            proof {
                assert(!is_digit(d[i - start]));
            }
            return None;
        }
        let next = acc * 10 + (cp - 0x30);
        proof {
            let pre = s@.subrange(start as int, i as int);
            let cur = s@.subrange(start as int, i + 1);
            assert(cur.drop_last() =~= pre);
            assert(cur.last() == c);
        }
        if next > 0xFFFF {
            proof {
                let cur = s@.subrange(start as int, i + 1);
                let rest = s@.subrange(i + 1, n as int);
                assert(d =~= cur + rest);
                lemma_dec_val_append(cur, rest);
                assert(dec_val(d) >= dec_val(cur) > 0xFFFF);
            }
            return None;
        }
        acc = next;
        i += 1;
    }
    proof {
        assert(d =~= s@.subrange(start as int, n as int));
        assert(forall|j: int| 0 <= j < d.len() ==> is_digit(d[j]));
    }
    Some(acc as u16)
}

/// What a boolean field parses to: exactly `true` or `false`.
pub open spec fn spec_parse_bool(s: Seq<char>) -> Option<bool> {
    if s == "true"@ {
        Some(true)
    } else if s == "false"@ {
        Some(false)
    } else {
        None
    }
}

/// Parse a boolean field as the standard library does for `bool`.
pub fn parse_bool(s: &str) -> (r: Option<bool>)
    ensures
        r == spec_parse_bool(s@),
{
    if str_eq(s, "true") {
        Some(true)
    } else if str_eq(s, "false") {
        Some(false)
    } else {
        None
    }
}

/// Splitting at semicolons into at most `n` pieces: the last piece keeps
/// any further semicolons.
pub open spec fn splitn_semi(s: Seq<char>, n: nat) -> Seq<Seq<char>>
    decreases s.len(),
{
    if n <= 1 || s.len() == 0 {
        seq![s]
    } else if s[0] == ';' {
        seq![Seq::<char>::empty()] + splitn_semi(s.drop_first(), (n - 1) as nat)
    } else {
        let r = splitn_semi(s.drop_first(), n);
        seq![seq![s[0]] + r[0]] + r.drop_first()
    }
}

/// A split is never empty and never exceeds the piece bound.
pub proof fn lemma_splitn_semi_len(s: Seq<char>, n: nat)
    requires
        n >= 1,
    ensures
        1 <= splitn_semi(s, n).len() <= n,
    decreases s.len(),
{
    if n <= 1 || s.len() == 0 {
    } else if s[0] == ';' {
        lemma_splitn_semi_len(s.drop_first(), (n - 1) as nat);
    } else {
        lemma_splitn_semi_len(s.drop_first(), n);
    }
}

/// The result of prepending characters to the first piece of a split.
spec fn prepend_first(c: Seq<char>, parts: Seq<Seq<char>>) -> Seq<Seq<char>>
    recommends
        parts.len() >= 1,
{
    seq![c + parts[0]] + parts.drop_first()
}

/// Moving one non-separator character (or any character, once only one
/// piece is allowed) from the remainder into the current piece keeps the
/// overall split.
proof fn lemma_split_step_char(cur: Seq<char>, rem: Seq<char>, m: nat)
    requires
        m >= 1,
        rem.len() > 0,
        m > 1 ==> rem[0] != ';',
    ensures
        prepend_first(cur, splitn_semi(rem, m)) == prepend_first(
            cur.push(rem[0]),
            splitn_semi(rem.drop_first(), m),
        ),
{
    lemma_splitn_semi_len(rem, m);
    lemma_splitn_semi_len(rem.drop_first(), m);
    if m <= 1 {
        if rem.drop_first().len() == 0 {
            assert(prepend_first(cur, seq![rem]) =~~= prepend_first(
                cur.push(rem[0]),
                seq![rem.drop_first()],
            ));
        } else {
            assert(cur + rem =~= cur.push(rem[0]) + rem.drop_first());
            assert(prepend_first(cur, splitn_semi(rem, m)) =~~= prepend_first(
                cur.push(rem[0]),
                splitn_semi(rem.drop_first(), m),
            ));
        }
    } else {
        let r = splitn_semi(rem.drop_first(), m);
        assert(splitn_semi(rem, m) == seq![seq![rem[0]] + r[0]] + r.drop_first());
        assert(cur + (seq![rem[0]] + r[0]) =~= cur.push(rem[0]) + r[0]);
        assert(prepend_first(cur, splitn_semi(rem, m)) =~~= prepend_first(cur.push(rem[0]), r));
    }
}

/// Split text at semicolons into at most seven fields; the seventh keeps
/// any further semicolons verbatim.
pub fn split_fields(content: &str) -> (r: Vec<String>)
    ensures
        r.deep_view() == splitn_semi(content@, 7),
{
    let n = content.unicode_len();
    let mut fields: Vec<String> = Vec::new();
    let mut start: usize = 0;
    let mut i: usize = 0;
    proof {
        lemma_splitn_semi_len(content@, 7);
        let parts = splitn_semi(content@, 7);
        assert(content@.subrange(0, n as int) =~= content@);
        assert(Seq::<char>::empty() + parts[0] =~= parts[0]);
        assert(prepend_first(Seq::<char>::empty(), parts) =~~= parts);
        assert(fields.deep_view() =~= Seq::<Seq<char>>::empty());
        assert(fields.deep_view() + parts =~= parts);
    }
    while i < n
        invariant
            n == content@.len(),
            start <= i <= n,
            fields@.len() <= 6,
            splitn_semi(content@, 7) == fields.deep_view() + prepend_first(
                content@.subrange(start as int, i as int),
                splitn_semi(content@.subrange(i as int, n as int), (7 - fields@.len()) as nat),
            ),
        decreases n - i,
    {
        let c = content.get_char(i);
        let ghost cur = content@.subrange(start as int, i as int);
        let ghost rem = content@.subrange(i as int, n as int);
        let ghost m = (7 - fields@.len()) as nat;
        if c == ';' && fields.len() < 6 {
            proof {
                assert(rem[0] == ';');
                assert(splitn_semi(rem, m) == seq![Seq::<char>::empty()] + splitn_semi(
                    rem.drop_first(),
                    (m - 1) as nat,
                ));
                assert(rem.drop_first() =~= content@.subrange(i + 1, n as int));
                assert(prepend_first(cur, splitn_semi(rem, m)) =~~= seq![cur] + splitn_semi(
                    rem.drop_first(),
                    (m - 1) as nat,
                ));
            }
            let piece = content.substring_char(start, i);
            fields.push(piece.to_owned());
            proof {
                assert(fields.deep_view() =~= fields.deep_view().drop_last().push(cur));
                assert(fields.deep_view().drop_last() + (seq![cur] + splitn_semi(
                    content@.subrange(i + 1, n as int),
                    (7 - fields@.len()) as nat,
                )) =~= fields.deep_view() + splitn_semi(
                    content@.subrange(i + 1, n as int),
                    (7 - fields@.len()) as nat,
                ));
                let cur2 = content@.subrange(i + 1, i + 1);
                assert(cur2 =~= Seq::<char>::empty());
                assert(prepend_first(cur2, splitn_semi(content@.subrange(i + 1, n as int), (7
                    - fields@.len()) as nat)) =~~= splitn_semi(
                    content@.subrange(i + 1, n as int),
                    (7 - fields@.len()) as nat,
                )) by {
                    lemma_splitn_semi_len(content@.subrange(i + 1, n as int), (7
                        - fields@.len()) as nat);
                    let parts = splitn_semi(content@.subrange(i + 1, n as int), (7
                        - fields@.len()) as nat);
                    assert(seq![Seq::<char>::empty() + parts[0]] + parts.drop_first() =~~= parts);
                }
            }
            start = i + 1;
        } else {
            proof {
                lemma_split_step_char(cur, rem, m);
                assert(cur.push(rem[0]) =~= content@.subrange(start as int, i + 1));
                assert(rem.drop_first() =~= content@.subrange(i + 1, n as int));
            }
        }
        i += 1;
    }
    let last = content.substring_char(start, n);
    fields.push(last.to_owned());
    proof {
        let cur = content@.subrange(start as int, n as int);
        let rem = content@.subrange(n as int, n as int);
        let m = (7 - (fields@.len() - 1)) as nat;
        assert(rem =~= Seq::<char>::empty());
        assert(splitn_semi(rem, m) == seq![rem]);
        assert(prepend_first(cur, splitn_semi(rem, m)) =~~= seq![cur]);
        assert(fields.deep_view() =~= fields.deep_view().drop_last().push(cur));
        assert(fields.deep_view().drop_last() + seq![cur] =~= fields.deep_view());
        assert(fields.deep_view() =~= splitn_semi(content@, 7));
    }
    fields
}

/// How many semicolons a text holds.
pub open spec fn count_semis(s: Seq<char>) -> nat
    decreases s.len(),
{
    if s.len() == 0 {
        0
    } else {
        (if s[0] == ';' {
            1nat
        } else {
            0nat
        }) + count_semis(s.drop_first())
    }
}

/// A split has one piece per separator plus one, capped at the piece
/// bound.
proof fn lemma_splitn_semi_count(s: Seq<char>, n: nat)
    requires
        n >= 1,
    ensures
        splitn_semi(s, n).len() == if count_semis(s) + 1 <= n {
            count_semis(s) + 1
        } else {
            n
        },
    decreases s.len(),
{
    if n <= 1 || s.len() == 0 {
    } else if s[0] == ';' {
        lemma_splitn_semi_count(s.drop_first(), (n - 1) as nat);
    } else {
        lemma_splitn_semi_count(s.drop_first(), n);
        lemma_splitn_semi_len(s.drop_first(), n);
    }
}

/// A definition-file content that yields a record: splitting it at
/// semicolons gives the full seven fields.
pub open spec fn is_well_formed_content(s: Seq<char>) -> bool {
    splitn_semi(s, 7).len() == 7
}

/// A content is well formed exactly when it holds at least six
/// semicolons: only then does the split reach all seven fields.
pub proof fn lemma_well_formed_iff_six_semicolons(s: Seq<char>)
    ensures
        is_well_formed_content(s) <==> count_semis(s) >= 6,
{
    lemma_splitn_semi_count(s, 7);
}

/// What the enabled field falls back to when it does not parse.
pub open spec fn spec_enabled_field(f: Seq<char>) -> bool {
    match spec_parse_bool(f) {
        Some(b) => b,
        None => true,
    }
}

/// What the modifiers field falls back to when it does not parse.
pub open spec fn spec_modifiers_field(f: Seq<char>) -> u16 {
    match spec_parse_u16(f) {
        Some(v) => v,
        None => 0,
    }
}

/// What the keycode field falls back to when it does not parse.
pub open spec fn spec_keycode_field(f: Seq<char>) -> u16 {
    match spec_parse_u16(f) {
        Some(v) => v,
        None => UNSET_KEYCODE,
    }
}

/// The record that a well-formed content denotes, field by field.
pub open spec fn record_of_content(rec: Shortcut, id: int, s: Seq<char>) -> bool {
    let f = splitn_semi(s, 7);
    &&& rec.id == id
    &&& rec.version@ == f[0]
    &&& rec.process@ == lower_of(f[1])
    &&& rec.enabled == spec_enabled_field(f[2])
    &&& rec.modifiers == spec_modifiers_field(f[3])
    &&& rec.keycode == spec_keycode_field(f[4])
    &&& rec.format == crate::clip_formats::spec_parse_format(f[5])
    &&& rec.data@ == f[6]
}

/// Parse one definition-file content into a record. A content with fewer
/// than seven fields yields no record; in a full content each field that
/// fails to parse individually falls back to its documented default.
pub fn parse_shortcut(id: i32, content: &str) -> (r: Option<Shortcut>)
    ensures
        r is Some <==> is_well_formed_content(content@),
        r is Some ==> record_of_content(r->0, id as int, content@),
{
    let fields = split_fields(content);
    proof {
        assert(fields@.len() == fields.deep_view().len());
        lemma_splitn_semi_len(content@, 7);
    }
    if fields.len() < 7 {
        return None;
    }
    let enabled = match parse_bool(fields[2].as_str()) {
        Some(b) => b,
        None => true,
    };
    let modifiers = match parse_u16(fields[3].as_str()) {
        Some(v) => v,
        None => 0,
    };
    let keycode = match parse_u16(fields[4].as_str()) {
        Some(v) => v,
        None => UNSET_KEYCODE,
    };
    let format = Format::from_str(fields[5].as_str());
    let rec = Shortcut {
        id,
        version: fields[0].clone(),
        process: lowercase(fields[1].as_str()),
        enabled,
        modifiers,
        keycode,
        format,
        data: fields[6].clone(),
    };
    proof {
        assert forall|k: int| 0 <= k < 7 implies fields@[k]@ == splitn_semi(content@, 7)[k] by {
            assert(fields.deep_view()[k] == fields@[k]@);
        }
    }
    Some(rec)
}

/// The loading relation: `records` is exactly what the directory's file
/// contents denote — one record per well-formed content, carrying its
/// enumeration index as id, in enumeration order (so ids are unique).
pub open spec fn loaded_from(records: Seq<Shortcut>, contents: Seq<Seq<char>>) -> bool {
    &&& forall|i: int|
        0 <= i < records.len() ==> {
            &&& 0 <= #[trigger] records[i].id < contents.len()
            &&& is_well_formed_content(contents[records[i].id as int])
            &&& record_of_content(records[i], records[i].id as int, contents[records[i].id as int])
        }
    &&& forall|i: int, j: int|
        0 <= i < j < records.len() ==> #[trigger] records[i].id < #[trigger] records[j].id
    &&& forall|k: int|
        0 <= k < contents.len() && is_well_formed_content(#[trigger] contents[k]) ==> exists|i: int|
            0 <= i < records.len() && #[trigger] records[i].id == k
}

/// Load the records of a directory scan: `contents[k]` is the text of the
/// k-th regular file, in enumeration order. Well-formed contents yield one
/// record each; the others are skipped without aborting the scan.
pub fn load_records(contents: &Vec<String>) -> (records: Vec<Shortcut>)
    requires
        contents@.len() <= 0x7FFF_FFFF,
    ensures
        loaded_from(records@, contents.deep_view()),
{
    let mut records: Vec<Shortcut> = Vec::new();
    let mut k: usize = 0;
    while k < contents.len()
        invariant
            contents@.len() <= 0x7FFF_FFFF,
            k <= contents@.len(),
            forall|i: int|
                0 <= i < records@.len() ==> {
                    &&& 0 <= #[trigger] records@[i].id < k
                    &&& is_well_formed_content(contents.deep_view()[records@[i].id as int])
                    &&& record_of_content(
                        records@[i],
                        records@[i].id as int,
                        contents.deep_view()[records@[i].id as int],
                    )
                }
            ,
            forall|i: int, j: int|
                0 <= i < j < records@.len() ==> #[trigger] records@[i].id
                    < #[trigger] records@[j].id,
            forall|c: int|
                0 <= c < k && is_well_formed_content(#[trigger] contents.deep_view()[c])
                    ==> exists|i: int| 0 <= i < records@.len() && #[trigger] records@[i].id == c,
        decreases contents@.len() - k,
    {
        proof {
            assert(contents.deep_view()[k as int] == contents@[k as int]@);
        }
        let ghost prev = records@;
        if let Some(rec) = parse_shortcut(k as i32, contents[k].as_str()) {
            records.push(rec);
            proof {
                assert(records@[prev.len() as int].id == k as i32);
                assert forall|c: int|
                    0 <= c < k + 1 && is_well_formed_content(
                        #[trigger] contents.deep_view()[c],
                    ) implies exists|i: int|
                    0 <= i < records@.len() && #[trigger] records@[i].id == c by {
                    if c < k {
                        let i = choose|i: int| 0 <= i < prev.len() && #[trigger] prev[i].id == c;
                        assert(records@[i].id == c);
                    } else {
                        assert(records@[prev.len() as int].id == c);
                    }
                }
            }
        } else {
            proof {
                assert(!is_well_formed_content(contents.deep_view()[k as int]));
                assert forall|c: int|
                    0 <= c < k + 1 && is_well_formed_content(
                        #[trigger] contents.deep_view()[c],
                    ) implies exists|i: int|
                    0 <= i < records@.len() && #[trigger] records@[i].id == c by {
                    let i = choose|i: int| 0 <= i < prev.len() && #[trigger] prev[i].id == c;
                    assert(records@[i].id == c);
                }
            }
        }
        k += 1;
    }
    records
}

/// For each well-formed content there is exactly one loaded record
/// carrying its index.
pub proof fn lemma_load_exactly_one(records: Seq<Shortcut>, contents: Seq<Seq<char>>, k: int)
    requires
        loaded_from(records, contents),
        0 <= k < contents.len(),
        is_well_formed_content(contents[k]),
    ensures
        exists|i: int| 0 <= i < records.len() && #[trigger] records[i].id == k,
        forall|i: int, j: int|
            0 <= i < records.len() && 0 <= j < records.len() && records[i].id == k
                && records[j].id == k ==> i == j,
{
    assert forall|i: int, j: int|
        0 <= i < records.len() && 0 <= j < records.len() && records[i].id == k && records[j].id
            == k implies i == j by {
        if i < j {
            assert(records[i].id < records[j].id);
        }
        if j < i {
            assert(records[j].id < records[i].id);
        }
    }
}

/// A fired event selects a record only when the record is enabled, its
/// key combination is the event's, and its process is the focused one.
pub open spec fn record_matches_event(rec: Shortcut, mods: u16, key: u16, process: Seq<char>) -> bool {
    rec.enabled && rec.modifiers == mods && rec.keycode == key && rec.process@ == process
}

/// An enabled record whose key combination is the event's, regardless of
/// its process: the candidates for the duplicate-binding notice.
pub open spec fn record_matches_keys(rec: Shortcut, mods: u16, key: u16) -> bool {
    rec.enabled && rec.modifiers == mods && rec.keycode == key
}

/// The first record, in load order, that the event selects.
pub open spec fn first_event_match(
    records: Seq<Shortcut>,
    mods: u16,
    key: u16,
    process: Seq<char>,
) -> Option<int>
    decreases records.len(),
{
    if records.len() == 0 {
        None
    } else if record_matches_event(records[0], mods, key, process) {
        Some(0)
    } else {
        match first_event_match(records.drop_first(), mods, key, process) {
            Some(i) => Some(i + 1),
            None => None,
        }
    }
}

/// The first enabled record, in load order, with the event's key
/// combination.
pub open spec fn first_key_match(records: Seq<Shortcut>, mods: u16, key: u16) -> Option<int>
    decreases records.len(),
{
    if records.len() == 0 {
        None
    } else if record_matches_keys(records[0], mods, key) {
        Some(0)
    } else {
        match first_key_match(records.drop_first(), mods, key) {
            Some(i) => Some(i + 1),
            None => None,
        }
    }
}

/// What the first full match is: the unique earliest selected record, or
/// nothing when no record is selected.
pub proof fn lemma_first_event_match_characterization(
    records: Seq<Shortcut>,
    mods: u16,
    key: u16,
    process: Seq<char>,
)
    ensures
        match first_event_match(records, mods, key, process) {
            Some(i) => 0 <= i < records.len() && record_matches_event(records[i], mods, key, process)
                && forall|j: int|
                0 <= j < i ==> !record_matches_event(#[trigger] records[j], mods, key, process),
            None => forall|j: int|
                0 <= j < records.len() ==> !record_matches_event(
                    #[trigger] records[j],
                    mods,
                    key,
                    process,
                ),
        },
    decreases records.len(),
{
    if records.len() > 0 {
        let rest = records.drop_first();
        lemma_first_event_match_characterization(rest, mods, key, process);
        if !record_matches_event(records[0], mods, key, process) {
            match first_event_match(rest, mods, key, process) {
                Some(i) => {
                    assert(rest[i] == records[i + 1]);
                    assert forall|j: int| 0 <= j < i + 1 implies !record_matches_event(
                        #[trigger] records[j],
                        mods,
                        key,
                        process,
                    ) by {
                        if j > 0 {
                            assert(rest[j - 1] == records[j]);
                        }
                    }
                },
                None => {
                    assert forall|j: int| 0 <= j < records.len() implies !record_matches_event(
                        #[trigger] records[j],
                        mods,
                        key,
                        process,
                    ) by {
                        if j > 0 {
                            assert(rest[j - 1] == records[j]);
                        }
                    }
                },
            }
        }
    }
}

/// What the first key-combination match is, in the same way.
pub proof fn lemma_first_key_match_characterization(records: Seq<Shortcut>, mods: u16, key: u16)
    ensures
        match first_key_match(records, mods, key) {
            Some(i) => 0 <= i < records.len() && record_matches_keys(records[i], mods, key)
                && forall|j: int|
                0 <= j < i ==> !record_matches_keys(#[trigger] records[j], mods, key),
            None => forall|j: int|
                0 <= j < records.len() ==> !record_matches_keys(#[trigger] records[j], mods, key),
        },
    decreases records.len(),
{
    if records.len() > 0 {
        let rest = records.drop_first();
        lemma_first_key_match_characterization(rest, mods, key);
        if !record_matches_keys(records[0], mods, key) {
            match first_key_match(rest, mods, key) {
                Some(i) => {
                    assert(rest[i] == records[i + 1]);
                    assert forall|j: int| 0 <= j < i + 1 implies !record_matches_keys(
                        #[trigger] records[j],
                        mods,
                        key,
                    ) by {
                        if j > 0 {
                            assert(rest[j - 1] == records[j]);
                        }
                    }
                },
                None => {
                    assert forall|j: int| 0 <= j < records.len() implies !record_matches_keys(
                        #[trigger] records[j],
                        mods,
                        key,
                    ) by {
                        if j > 0 {
                            assert(rest[j - 1] == records[j]);
                        }
                    }
                },
            }
        }
    }
}

/// Find the first record the event selects: matching is first-match-wins
/// in load order, and scoped to the focused process.
pub fn find_match(records: &Vec<Shortcut>, mods: u16, key: u16, process: &String) -> (r: Option<
    usize,
>)
    ensures
        match r {
            Some(i) => first_event_match(records@, mods, key, process@) == Some(i as int),
            None => first_event_match(records@, mods, key, process@) is None,
        },
{
    proof {
        lemma_first_event_match_characterization(records@, mods, key, process@);
    }
    let mut i: usize = 0;
    while i < records.len()
        invariant
            i <= records@.len(),
            forall|j: int|
                0 <= j < i ==> !record_matches_event(#[trigger] records@[j], mods, key, process@),
            match first_event_match(records@, mods, key, process@) {
                Some(m) => 0 <= m < records@.len() && record_matches_event(
                    records@[m],
                    mods,
                    key,
                    process@,
                ) && forall|j: int|
                    0 <= j < m ==> !record_matches_event(
                        #[trigger] records@[j],
                        mods,
                        key,
                        process@,
                    ),
                None => forall|j: int|
                    0 <= j < records@.len() ==> !record_matches_event(
                        #[trigger] records@[j],
                        mods,
                        key,
                        process@,
                    ),
            },
        decreases records@.len() - i,
    {
        let rec = &records[i];
        if rec.enabled && rec.modifiers == mods && rec.keycode == key && rec.process.eq(process) {
            return Some(i);
        }
        i += 1;
    }
    None
}

/// Find the first enabled record with the event's key combination,
/// regardless of process: the candidate for the duplicate-binding notice.
pub fn find_key_match(records: &Vec<Shortcut>, mods: u16, key: u16) -> (r: Option<usize>)
    ensures
        match r {
            Some(i) => first_key_match(records@, mods, key) == Some(i as int),
            None => first_key_match(records@, mods, key) is None,
        },
{
    proof {
        lemma_first_key_match_characterization(records@, mods, key);
    }
    let mut i: usize = 0;
    while i < records.len()
        invariant
            i <= records@.len(),
            forall|j: int|
                0 <= j < i ==> !record_matches_keys(#[trigger] records@[j], mods, key),
            match first_key_match(records@, mods, key) {
                Some(m) => 0 <= m < records@.len() && record_matches_keys(records@[m], mods, key)
                    && forall|j: int|
                    0 <= j < m ==> !record_matches_keys(#[trigger] records@[j], mods, key),
                None => forall|j: int|
                    0 <= j < records@.len() ==> !record_matches_keys(
                        #[trigger] records@[j],
                        mods,
                        key,
                    ),
            },
        decreases records@.len() - i,
    {
        let rec = &records[i];
        if rec.enabled && rec.modifiers == mods && rec.keycode == key {
            return Some(i);
        }
        i += 1;
    }
    None
}

/// Matching is deterministic and process-scoped: whichever record an
/// event selects is enabled, carries the event's key combination, and is
/// bound to the focused process — a record bound to another process is
/// never selected.
pub proof fn lemma_match_process_scoped(
    records: Seq<Shortcut>,
    mods: u16,
    key: u16,
    process: Seq<char>,
    i: int,
)
    requires
        first_event_match(records, mods, key, process) == Some(i),
    ensures
        0 <= i < records.len(),
        records[i].enabled,
        records[i].modifiers == mods,
        records[i].keycode == key,
        records[i].process@ == process,
        forall|j: int|
            0 <= j < records.len() && #[trigger] records[j].process@ != process ==> j != i,
{
    lemma_first_event_match_characterization(records, mods, key, process);
}

/// A disabled record is never selected as a match target, whatever the
/// event and whichever process is focused.
pub proof fn lemma_disabled_never_matched(
    records: Seq<Shortcut>,
    mods: u16,
    key: u16,
    process: Seq<char>,
    i: int,
)
    requires
        0 <= i < records.len(),
        !records[i].enabled,
    ensures
        first_event_match(records, mods, key, process) != Some(i),
{
    lemma_first_event_match_characterization(records, mods, key, process);
}

} // verus!
