//! The timestamp transformer: a pure function that replaces the date fields of
//! a timestamp of shape `YYYY:MM:DD HH:MM:SS[±HH:MM]` while carrying the
//! time of day and the timezone offset through unchanged.

use vstd::prelude::*;
use vstd::string::*;

verus! {

/// The characters that separate the date from the time.
pub open spec fn space_chars() -> Set<char> {
    set![' ']
}

/// The characters that open a timezone offset.
pub open spec fn sign_chars() -> Set<char> {
    set!['+', '-']
}

/// The characters that separate the fields of a date.
pub open spec fn colon_chars() -> Set<char> {
    set![':']
}

/// Index of the first character of `s` at or after `i` that lies in `cs`.
pub open spec fn first_of(s: Seq<char>, i: int, cs: Set<char>) -> Option<int>
    decreases s.len() - i,
{
    if i < 0 || i >= s.len() {
        None
    } else if cs.contains(s[i]) {
        Some(i)
    } else {
        first_of(s, i + 1, cs)
    }
}

/// What `first_of` returns: the index it names holds a character of `cs` and
/// nothing before it does; `None` means no character of `cs` occurs at all.
pub proof fn lemma_first_of_characterization(s: Seq<char>, i: int, cs: Set<char>)
    requires
        0 <= i <= s.len(),
    ensures
        match first_of(s, i, cs) {
            Some(k) => i <= k < s.len() && cs.contains(s[k]) && (forall|j: int|
                i <= j < k ==> !cs.contains(s[j])),
            None => forall|j: int| i <= j < s.len() ==> !cs.contains(s[j]),
        },
    decreases s.len() - i,
{
    if i < s.len() && !cs.contains(s[i]) {
        lemma_first_of_characterization(s, i + 1, cs);
    }
}

/// A witness pins `first_of` down: if `s[k]` lies in `cs` and nothing at or
/// after `i` but before `k` does, the scan finds `k`.
pub proof fn lemma_first_of_at(s: Seq<char>, i: int, k: int, cs: Set<char>)
    requires
        0 <= i <= k < s.len(),
        cs.contains(s[k]),
        forall|j: int| i <= j < k ==> !cs.contains(s[j]),
    ensures
        first_of(s, i, cs) == Some(k),
    decreases k - i,
{
    if i < k {
        lemma_first_of_at(s, i + 1, k, cs);
    }
}

/// If no character of `cs` occurs at or after `i`, the scan finds nothing.
pub proof fn lemma_first_of_none(s: Seq<char>, i: int, cs: Set<char>)
    requires
        0 <= i <= s.len(),
        forall|j: int| i <= j < s.len() ==> !cs.contains(s[j]),
    ensures
        first_of(s, i, cs) is None,
    decreases s.len() - i,
{
    if i < s.len() {
        lemma_first_of_none(s, i + 1, cs);
    }
}

/// The time of day within the part of a timestamp that follows the first
/// space: everything before the first `+` or `-`, or the whole text when no
/// offset is present.
pub open spec fn time_part_of(time_and_tz: Seq<char>) -> Seq<char> {
    match first_of(time_and_tz, 0, sign_chars()) {
        Some(ti) => time_and_tz.subrange(0, ti),
        None => time_and_tz,
    }
}

/// The timezone offset within the part of a timestamp that follows the first
/// space: everything from the first `+` or `-` on, or empty when no offset is
/// present.
pub open spec fn tz_offset_of(time_and_tz: Seq<char>) -> Seq<char> {
    match first_of(time_and_tz, 0, sign_chars()) {
        Some(ti) => time_and_tz.subrange(ti, time_and_tz.len() as int),
        None => Seq::<char>::empty(),
    }
}

/// A freshly assembled timestamp: `year:month:day time` followed by the
/// (possibly empty) timezone offset.
pub open spec fn assembled(
    year: Seq<char>,
    month: Seq<char>,
    day: Seq<char>,
    time: Seq<char>,
    tz: Seq<char>,
) -> Seq<char> {
    year + seq![':'] + month + seq![':'] + day + seq![' '] + time + tz
}

/// The view of an optional string slice.
pub open spec fn opt_str_view(o: Option<&str>) -> Option<Seq<char>> {
    match o {
        Some(s) => Some(s@),
        None => None,
    }
}

/// What the transformer computes. The input splits at its first space into a
/// date part and a time-and-offset part; the date part must contain a colon,
/// and its text before that colon is the original year. The result replaces
/// the whole date with the requested day and month and with the requested
/// year where one is supplied (the original year otherwise), and carries the
/// time of day and the offset through unchanged.
pub open spec fn transform_spec(
    orig: Seq<char>,
    new_year: Option<Seq<char>>,
    new_month: Seq<char>,
    new_day: Seq<char>,
) -> Option<Seq<char>> {
    match first_of(orig, 0, space_chars()) {
        None => None,
        Some(sp) => {
            let date_part = orig.subrange(0, sp);
            let time_and_tz = orig.subrange(sp + 1, orig.len() as int);
            match first_of(date_part, 0, colon_chars()) {
                None => None,
                Some(ci) => {
                    let year = match new_year {
                        Some(y) => y,
                        None => date_part.subrange(0, ci),
                    };
                    Some(
                        assembled(
                            year,
                            new_month,
                            new_day,
                            time_part_of(time_and_tz),
                            tz_offset_of(time_and_tz),
                        ),
                    )
                },
            }
        },
    }
}

/// `s` holds no character of `cs`.
pub open spec fn has_no(s: Seq<char>, cs: Set<char>) -> bool {
    forall|i: int| 0 <= i < s.len() ==> !cs.contains(s[i])
}

/// A decimal digit.
pub open spec fn is_digit(c: char) -> bool {
    '0' as int <= c as int && c as int <= '9' as int
}

/// The shape `YYYY:MM:DD HH:MM:SS`: nineteen characters, colons and the one
/// space at their fixed places, digits everywhere else.
pub open spec fn is_plain_timestamp(s: Seq<char>) -> bool {
    &&& s.len() == 19
    &&& s[4] == ':'
    &&& s[7] == ':'
    &&& s[10] == ' '
    &&& s[13] == ':'
    &&& s[16] == ':'
    &&& forall|i: int|
        (0 <= i < 19 && i != 4 && i != 7 && i != 10 && i != 13 && i != 16) ==> is_digit(#[trigger] s[i])
}

/// The shape `YYYY:MM:DD HH:MM:SS±HH:MM`: a plain timestamp followed by a
/// six-character timezone offset that opens with `+` or `-`.
pub open spec fn is_offset_timestamp(s: Seq<char>) -> bool {
    &&& s.len() == 25
    &&& s[4] == ':'
    &&& s[7] == ':'
    &&& s[10] == ' '
    &&& s[13] == ':'
    &&& s[16] == ':'
    &&& (s[19] == '+' || s[19] == '-')
    &&& s[22] == ':'
    &&& forall|i: int|
        (0 <= i < 25 && i != 4 && i != 7 && i != 10 && i != 13 && i != 16 && i != 19 && i != 22)
            ==> is_digit(#[trigger] s[i])
}

/// Law: on a timestamp without an offset, the transformation succeeds, keeps
/// the time of day `HH:MM:SS` byte for byte, replaces day and month, and
/// replaces the year exactly when one is supplied.
pub proof fn lemma_plain_preserves_time(
    s: Seq<char>,
    ny: Option<Seq<char>>,
    m: Seq<char>,
    d: Seq<char>,
)
    requires
        is_plain_timestamp(s),
    ensures
        transform_spec(s, ny, m, d) == Some(
            assembled(
                match ny {
                    Some(y) => y,
                    None => s.subrange(0, 4),
                },
                m,
                d,
                s.subrange(11, 19),
                Seq::<char>::empty(),
            ),
        ),
{
    assert forall|j: int| 0 <= j < 10 implies !space_chars().contains(s[j]) by {
        if j != 4 && j != 7 {
            assert(is_digit(s[j]));
        }
    }
    lemma_first_of_at(s, 0, 10, space_chars());
    let date_part = s.subrange(0, 10);
    let tt = s.subrange(11, 19);
    assert forall|j: int| 0 <= j < 4 implies !colon_chars().contains(date_part[j]) by {
        assert(is_digit(s[j]));
    }
    lemma_first_of_at(date_part, 0, 4, colon_chars());
    assert forall|j: int| 0 <= j < tt.len() implies !sign_chars().contains(tt[j]) by {
        let k = j + 11;
        assert(tt[j] == s[k]);
        if k != 13 && k != 16 {
            assert(is_digit(s[k]));
        }
    }
    lemma_first_of_none(tt, 0, sign_chars());
    assert(date_part.subrange(0, 4) =~= s.subrange(0, 4));
}

/// Law: on a timestamp with an offset, the transformation succeeds, keeps the
/// time of day and the whole offset (sign included) byte for byte, replaces
/// day and month, and replaces the year exactly when one is supplied.
pub proof fn lemma_offset_preserves_time_and_tz(
    s: Seq<char>,
    ny: Option<Seq<char>>,
    m: Seq<char>,
    d: Seq<char>,
)
    requires
        is_offset_timestamp(s),
    ensures
        transform_spec(s, ny, m, d) == Some(
            assembled(
                match ny {
                    Some(y) => y,
                    None => s.subrange(0, 4),
                },
                m,
                d,
                s.subrange(11, 19),
                s.subrange(19, 25),
            ),
        ),
{
    assert forall|j: int| 0 <= j < 10 implies !space_chars().contains(s[j]) by {
        if j != 4 && j != 7 {
            assert(is_digit(s[j]));
        }
    }
    lemma_first_of_at(s, 0, 10, space_chars());
    let date_part = s.subrange(0, 10);
    let tt = s.subrange(11, 25);
    assert forall|j: int| 0 <= j < 4 implies !colon_chars().contains(date_part[j]) by {
        assert(is_digit(s[j]));
    }
    lemma_first_of_at(date_part, 0, 4, colon_chars());
    assert forall|j: int| 0 <= j < 8 implies !sign_chars().contains(tt[j]) by {
        let k = j + 11;
        assert(tt[j] == s[k]);
        if k != 13 && k != 16 {
            assert(is_digit(s[k]));
        }
    }
    assert(tt[8] == s[19]);
    lemma_first_of_at(tt, 0, 8, sign_chars());
    assert(date_part.subrange(0, 4) =~= s.subrange(0, 4));
    assert(tt.subrange(0, 8) =~= s.subrange(11, 19));
    assert(tt.subrange(8, 14) =~= s.subrange(19, 25));
}

/// The text of a timestamp before its first colon; the whole text when no
/// colon occurs.
pub open spec fn year_field(s: Seq<char>) -> Seq<char> {
    match first_of(s, 0, colon_chars()) {
        Some(ci) => s.subrange(0, ci),
        None => s,
    }
}

/// Law: whenever the transformation succeeds, the year field of its output is
/// the supplied year where one was given, and the original's year field
/// otherwise — whatever the original's year was.
pub proof fn lemma_year_replacement(
    s: Seq<char>,
    ny: Option<Seq<char>>,
    m: Seq<char>,
    d: Seq<char>,
    t: Seq<char>,
)
    requires
        transform_spec(s, ny, m, d) == Some(t),
        match ny {
            Some(y) => has_no(y, colon_chars()),
            None => true,
        },
    ensures
        year_field(t) == match ny {
            Some(y) => y,
            None => year_field(s),
        },
{
    let sp = match first_of(s, 0, space_chars()) {
        Some(k) => k,
        None => 0,
    };
    lemma_first_of_characterization(s, 0, space_chars());
    let date_part = s.subrange(0, sp);
    let ci = match first_of(date_part, 0, colon_chars()) {
        Some(k) => k,
        None => 0,
    };
    lemma_first_of_characterization(date_part, 0, colon_chars());
    let y = match ny {
        Some(y) => y,
        None => date_part.subrange(0, ci),
    };
    // The year that went in is colon-free, so the output's first colon is the
    // one written right after it.
    assert forall|j: int| 0 <= j < y.len() implies !colon_chars().contains(t[j]) by {
        assert(t[j] == y[j]);
    }
    assert(t[y.len() as int] == ':');
    lemma_first_of_at(t, 0, y.len() as int, colon_chars());
    assert(t.subrange(0, y.len() as int) =~= y);
    if ny is None {
        // The original's first colon is the one that closed its year field.
        assert forall|j: int| 0 <= j < ci implies !colon_chars().contains(s[j]) by {
            assert(s[j] == date_part[j]);
        }
        assert(s[ci] == date_part[ci]);
        lemma_first_of_at(s, 0, ci, colon_chars());
        assert(s.subrange(0, ci) =~= date_part.subrange(0, ci));
    }
}

/// Parsing an assembled timestamp recovers exactly the parts it was built
/// from, provided the year, month and day are space-free, the year is
/// colon-free, and the time and offset are split where an offset would open.
pub proof fn lemma_assembled_parses(
    y: Seq<char>,
    m: Seq<char>,
    d: Seq<char>,
    tp: Seq<char>,
    tz: Seq<char>,
)
    requires
        has_no(y, space_chars()),
        has_no(m, space_chars()),
        has_no(d, space_chars()),
        has_no(y, colon_chars()),
        has_no(tp, sign_chars()),
        tz.len() == 0 || sign_chars().contains(tz[0]),
    ensures
        ({
            let t = assembled(y, m, d, tp, tz);
            let sp = y.len() + m.len() + d.len() + 2;
            &&& first_of(t, 0, space_chars()) == Some(sp as int)
            &&& t.subrange(0, sp as int) == y + seq![':'] + m + seq![':'] + d
            &&& t.subrange(sp as int + 1, t.len() as int) == tp + tz
            &&& first_of(t.subrange(0, sp as int), 0, colon_chars()) == Some(y.len() as int)
            &&& t.subrange(0, sp as int).subrange(0, y.len() as int) == y
            &&& time_part_of(tp + tz) == tp
            &&& tz_offset_of(tp + tz) == tz
        }),
{
    let t = assembled(y, m, d, tp, tz);
    let sp = y.len() + m.len() + d.len() + 2;
    assert forall|j: int| 0 <= j < sp implies !space_chars().contains(t[j]) by {
        if j < y.len() {
            assert(t[j] == y[j]);
        } else if j == y.len() {
            assert(t[j] == ':');
        } else if j < y.len() + 1 + m.len() {
            assert(t[j] == m[j - y.len() - 1]);
        } else if j == y.len() + 1 + m.len() {
            assert(t[j] == ':');
        } else {
            assert(t[j] == d[j - y.len() - m.len() - 2]);
        }
    }
    assert(t[sp as int] == ' ');
    lemma_first_of_at(t, 0, sp as int, space_chars());
    let date_part = t.subrange(0, sp as int);
    assert(date_part =~= y + seq![':'] + m + seq![':'] + d);
    assert(t.subrange(sp as int + 1, t.len() as int) =~= tp + tz);
    assert forall|j: int| 0 <= j < y.len() implies !colon_chars().contains(date_part[j]) by {
        assert(date_part[j] == y[j]);
    }
    assert(date_part[y.len() as int] == ':');
    lemma_first_of_at(date_part, 0, y.len() as int, colon_chars());
    assert(date_part.subrange(0, y.len() as int) =~= y);
    if tz.len() == 0 {
        assert(tp + tz =~= tp);
        lemma_first_of_none(tp, 0, sign_chars());
        assert(time_part_of(tp + tz) == tp);
        assert(tz_offset_of(tp + tz) =~= tz);
    } else {
        assert forall|j: int| 0 <= j < tp.len() implies !sign_chars().contains((tp + tz)[j]) by {
            assert((tp + tz)[j] == tp[j]);
        }
        assert((tp + tz)[tp.len() as int] == tz[0]);
        lemma_first_of_at(tp + tz, 0, tp.len() as int, sign_chars());
        assert((tp + tz).subrange(0, tp.len() as int) =~= tp);
        assert((tp + tz).subrange(tp.len() as int, (tp + tz).len() as int) =~= tz);
    }
}

/// Law: the transformation is idempotent. Re-applying it with the same day,
/// month and year to its own output gives that output back unchanged, for any
/// input on which it succeeded at all (the requested fields being space-free
/// and the year colon-free, as two-digit and four-digit fields are).
pub proof fn lemma_transform_idempotent(
    s: Seq<char>,
    ny: Option<Seq<char>>,
    m: Seq<char>,
    d: Seq<char>,
    t: Seq<char>,
)
    requires
        transform_spec(s, ny, m, d) == Some(t),
        has_no(m, space_chars()),
        has_no(d, space_chars()),
        match ny {
            Some(y) => has_no(y, space_chars()) && has_no(y, colon_chars()),
            None => true,
        },
    ensures
        transform_spec(t, ny, m, d) == Some(t),
{
    let sp = match first_of(s, 0, space_chars()) {
        Some(k) => k,
        None => 0,
    };
    lemma_first_of_characterization(s, 0, space_chars());
    let date_part = s.subrange(0, sp);
    let tt = s.subrange(sp + 1, s.len() as int);
    let ci = match first_of(date_part, 0, colon_chars()) {
        Some(k) => k,
        None => 0,
    };
    lemma_first_of_characterization(date_part, 0, colon_chars());
    let y = match ny {
        Some(yy) => yy,
        None => date_part.subrange(0, ci),
    };
    // The year taken from the original lies before the first space and before
    // the date part's first colon, so it is space-free and colon-free.
    assert forall|j: int| 0 <= j < y.len() implies !space_chars().contains(y[j])
        && !colon_chars().contains(y[j]) by {
        if ny is None {
            assert(y[j] == date_part[j]);
            assert(date_part[j] == s[j]);
        }
    }
    let tp = time_part_of(tt);
    let tz = tz_offset_of(tt);
    lemma_first_of_characterization(tt, 0, sign_chars());
    assert forall|j: int| 0 <= j < tp.len() implies !sign_chars().contains(tp[j]) by {
        assert(tp[j] == tt[j]);
    }
    lemma_assembled_parses(y, m, d, tp, tz);
    assert(tp + tz =~= tt);
    assert(t == assembled(y, m, d, tp, tz));
    assert(transform_spec(t, ny, m, d) == Some(assembled(y, m, d, tp, tz)));
}

/// Law: input without a space is rejected, never transformed.
pub proof fn lemma_no_space_rejected(
    s: Seq<char>,
    ny: Option<Seq<char>>,
    m: Seq<char>,
    d: Seq<char>,
)
    requires
        has_no(s, space_chars()),
    ensures
        transform_spec(s, ny, m, d) is None,
{
    lemma_first_of_none(s, 0, space_chars());
}

/// Law: input whose date segment — the text before the first space — has no
/// colon is rejected, never transformed.
pub proof fn lemma_no_colon_in_date_rejected(
    s: Seq<char>,
    ny: Option<Seq<char>>,
    m: Seq<char>,
    d: Seq<char>,
    sp: int,
)
    requires
        first_of(s, 0, space_chars()) == Some(sp),
        has_no(s.subrange(0, sp), colon_chars()),
    ensures
        transform_spec(s, ny, m, d) is None,
{
    lemma_first_of_characterization(s, 0, space_chars());
    lemma_first_of_none(s.subrange(0, sp), 0, colon_chars());
}

/// Index of the first space of `s`, scanning left to right.
fn find_space(s: &str) -> (r: Option<usize>)
    ensures
        match r {
            Some(i) => i < s@.len() && first_of(s@, 0, space_chars()) == Some(i as int),
            None => first_of(s@, 0, space_chars()) is None,
        },
{
    let n = s.unicode_len();
    let mut j: usize = 0;
    while j < n
        invariant
            j <= n,
            n == s@.len(),
            first_of(s@, 0, space_chars()) == first_of(s@, j as int, space_chars()),
        decreases n - j,
    {
        let c = s.get_char(j);
        if c == ' ' {
            assert(space_chars().contains(s@[j as int]));
            return Some(j);
        }
        assert(!space_chars().contains(s@[j as int]));
        j += 1;
    }
    None
}

/// Index of the first `+` or `-` of `s`, scanning left to right.
fn find_sign(s: &str) -> (r: Option<usize>)
    ensures
        match r {
            Some(i) => i < s@.len() && first_of(s@, 0, sign_chars()) == Some(i as int),
            None => first_of(s@, 0, sign_chars()) is None,
        },
{
    let n = s.unicode_len();
    let mut j: usize = 0;
    while j < n
        invariant
            j <= n,
            n == s@.len(),
            first_of(s@, 0, sign_chars()) == first_of(s@, j as int, sign_chars()),
        decreases n - j,
    {
        let c = s.get_char(j);
        if c == '+' || c == '-' {
            assert(sign_chars().contains(s@[j as int]));
            return Some(j);
        }
        assert(!sign_chars().contains(s@[j as int]));
        j += 1;
    }
    None
}

/// Index of the first colon of `s`, scanning left to right.
fn find_colon(s: &str) -> (r: Option<usize>)
    ensures
        match r {
            Some(i) => i < s@.len() && first_of(s@, 0, colon_chars()) == Some(i as int),
            None => first_of(s@, 0, colon_chars()) is None,
        },
{
    let n = s.unicode_len();
    let mut j: usize = 0;
    while j < n
        invariant
            j <= n,
            n == s@.len(),
            first_of(s@, 0, colon_chars()) == first_of(s@, j as int, colon_chars()),
        decreases n - j,
    {
        let c = s.get_char(j);
        if c == ':' {
            assert(colon_chars().contains(s@[j as int]));
            return Some(j);
        }
        assert(!colon_chars().contains(s@[j as int]));
        j += 1;
    }
    None
}

/// Build the replacement timestamp, preserving the original time of day and
/// any timezone offset. Fails, returning `None`, when the input has no space
/// or when its date part has no colon.
pub fn build_new_datetime(
    orig: &str,
    new_year: Option<&str>,
    new_month: &str,
    new_day: &str,
) -> (r: Option<String>)
    ensures
        match r {
            Some(s) => transform_spec(orig@, opt_str_view(new_year), new_month@, new_day@)
                == Some(s@),
            None => transform_spec(orig@, opt_str_view(new_year), new_month@, new_day@) is None,
        },
{
    let n = orig.unicode_len();
    let sp = match find_space(orig) {
        Some(i) => i,
        None => {
            return None;
        },
    };
    let date_part = orig.substring_char(0, sp);
    let time_and_tz = orig.substring_char(sp + 1, n);
    let tt_len = time_and_tz.unicode_len();

    let (time_part, tz_offset) = match find_sign(time_and_tz) {
        Some(ti) => (time_and_tz.substring_char(0, ti), time_and_tz.substring_char(ti, tt_len)),
        None => (time_and_tz, ""),
    };

    let ci = match find_colon(date_part) {
        Some(i) => i,
        None => {
            return None;
        },
    };
    let year_to_use = match new_year {
        Some(y) => y,
        None => date_part.substring_char(0, ci),
    };

    let mut out = String::new();
    out.append(year_to_use);
    out.append(":");
    out.append(new_month);
    out.append(":");
    out.append(new_day);
    out.append(" ");
    out.append(time_part);
    out.append(tz_offset);

    proof {
        reveal_strlit(":");
        reveal_strlit(" ");
        reveal_strlit("");
        assert(":"@ =~= seq![':']);
        assert(" "@ =~= seq![' ']);
        assert(""@ =~= Seq::<char>::empty());
        assert(out@ =~= assembled(
            year_to_use@,
            new_month@,
            new_day@,
            time_part@,
            tz_offset@,
        ));
    }
    Some(out)
}

} // verus!
