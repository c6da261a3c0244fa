//! The metadata gateway's computing half.
//!
//! The gateway talks to the external metadata tool: one invocation reads the
//! primary capture-timestamp field of a file, another overwrites the file in
//! place with three date-bearing fields set to one new value. Launching the
//! tool is outside work; what stands here is everything around it: the exact
//! argument lists the tool is owed, and the reading of its output into a
//! usable timestamp.

use vstd::prelude::*;
use vstd::string::*;

use crate::transform::first_of;
use crate::transform::lemma_first_of_characterization;
use crate::worker::read_view;

verus! {

/// The ASCII whitespace stripped from the tool's output.
pub open spec fn ws_chars() -> Set<char> {
    set![' ', '\t', '\n', '\r']
}

/// Everything but ASCII whitespace.
pub open spec fn non_ws() -> Set<char> {
    ws_chars().complement()
}

/// Index of the last character of `s` before `i` that lies in `cs`, scanning
/// right to left.
pub open spec fn last_of(s: Seq<char>, i: int, cs: Set<char>) -> Option<int>
    decreases i,
{
    if i <= 0 || i > s.len() {
        None
    } else if cs.contains(s[i - 1]) {
        Some(i - 1)
    } else {
        last_of(s, i - 1, cs)
    }
}

/// What `last_of` returns: the index it names holds a character of `cs` and
/// nothing after it but before `i` does; `None` means no character of `cs`
/// occurs before `i` at all.
pub proof fn lemma_last_of_characterization(s: Seq<char>, i: int, cs: Set<char>)
    requires
        0 <= i <= s.len(),
    ensures
        match last_of(s, i, cs) {
            Some(k) => 0 <= k < i && cs.contains(s[k]) && (forall|j: int|
                k < j < i ==> !cs.contains(s[j])),
            None => forall|j: int| 0 <= j < i ==> !cs.contains(s[j]),
        },
    decreases i,
{
    if i > 0 && !cs.contains(s[i - 1]) {
        lemma_last_of_characterization(s, i - 1, cs);
    }
}

/// `s` with its leading and trailing ASCII whitespace stripped: the text from
/// the first non-whitespace character through the last one, or empty when `s`
/// is whitespace alone.
pub open spec fn trimmed(s: Seq<char>) -> Seq<char> {
    match first_of(s, 0, non_ws()) {
        None => Seq::<char>::empty(),
        Some(a) => match last_of(s, s.len() as int, non_ws()) {
            Some(b) => s.subrange(a, b + 1),
            None => Seq::<char>::empty(),
        },
    }
}

/// What a read of the metadata tool yields: nothing when the tool failed or
/// printed only whitespace, and the trimmed output otherwise.
pub open spec fn read_output_spec(exit_ok: bool, out: Seq<char>) -> Option<Seq<char>> {
    if !exit_ok {
        None
    } else if trimmed(out).len() == 0 {
        None
    } else {
        Some(trimmed(out))
    }
}

fn is_ascii_ws(c: char) -> (b: bool)
    ensures
        b == ws_chars().contains(c),
{
    let b = c == ' ' || c == '\t' || c == '\n' || c == '\r';
    proof {
        assert(ws_chars().contains(c) == (c == ' ' || c == '\t' || c == '\n' || c == '\r'));
    }
    b
}

/// `s` with leading and trailing ASCII whitespace stripped.
fn trim_ascii(s: &str) -> (r: String)
    ensures
        r@ == trimmed(s@),
{
    let n = s.unicode_len();
    let mut a: usize = 0;
    let mut found_first: bool = false;
    while a < n && !found_first
        invariant
            a <= n,
            n == s@.len(),
            !found_first ==> first_of(s@, 0, non_ws()) == first_of(s@, a as int, non_ws()),
            found_first ==> a < n && first_of(s@, 0, non_ws()) == Some(a as int),
        decreases n - a + (if found_first { 0int } else { 1int }),
    {
        let c = s.get_char(a);
        if !is_ascii_ws(c) {
            found_first = true;
            assert(non_ws().contains(s@[a as int]));
        } else {
            assert(!non_ws().contains(s@[a as int]));
            a += 1;
        }
    }
    if !found_first {
        proof {
            assert(first_of(s@, n as int, non_ws()) is None);
        }
        return String::new();
    }

    let mut b: usize = n;
    let mut found_last: bool = false;
    while b > 0 && !found_last
        invariant
            b <= n,
            n == s@.len(),
            !found_last ==> last_of(s@, n as int, non_ws()) == last_of(s@, b as int, non_ws()),
            found_last ==> b >= 1 && last_of(s@, n as int, non_ws()) == Some(b as int - 1),
        decreases b + (if found_last { 0int } else { 1int }),
    {
        let c = s.get_char(b - 1);
        if !is_ascii_ws(c) {
            found_last = true;
            assert(non_ws().contains(s@[b as int - 1]));
        } else {
            assert(!non_ws().contains(s@[b as int - 1]));
            b -= 1;
        }
    }
    proof {
        // A non-whitespace character was seen at `a`, so the backward scan
        // cannot have run out, and it stops no earlier than `a`.
        lemma_first_of_characterization(s@, 0, non_ws());
        lemma_last_of_characterization(s@, n as int, non_ws());
        if !found_last {
            assert(false);
        }
        assert(a <= b);
    }
    let cut = s.substring_char(a, b);
    String::from_str(cut)
}

/// Read the metadata tool's answer: `None` when the tool failed or printed
/// only whitespace, the trimmed timestamp text otherwise.
pub fn interpret_read_output(exit_ok: bool, out: String) -> (r: Option<String>)
    ensures
        read_view(r) == read_output_spec(exit_ok, out@),
{
    if !exit_ok {
        return None;
    }
    let t = trim_ascii(out.as_str());
    if t.as_str().unicode_len() == 0 {
        None
    } else {
        Some(t)
    }
}

/// The argument list of a metadata read: the primary capture-timestamp field
/// of one file, in raw unlabeled form.
pub fn read_command_args(file: &str) -> (args: Vec<String>)
    ensures
        args@.len() == 5,
        args@[0]@ == "-DateTimeOriginal"@,
        args@[1]@ == "-s"@,
        args@[2]@ == "-s"@,
        args@[3]@ == "-s"@,
        args@[4]@ == file@,
{
    let mut args: Vec<String> = Vec::new();
    args.push(String::from_str("-DateTimeOriginal"));
    args.push(String::from_str("-s"));
    args.push(String::from_str("-s"));
    args.push(String::from_str("-s"));
    args.push(String::from_str(file));
    args
}

/// The argument list of a metadata write: overwrite the file in place, with
/// the original-capture, creation and modification fields all set to the one
/// new timestamp.
pub fn write_command_args(file: &str, new_dt: &str) -> (args: Vec<String>)
    ensures
        args@.len() == 5,
        args@[0]@ == "-overwrite_original"@,
        args@[1]@ == "-DateTimeOriginal="@ + new_dt@,
        args@[2]@ == "-CreateDate="@ + new_dt@,
        args@[3]@ == "-ModifyDate="@ + new_dt@,
        args@[4]@ == file@,
{
    let mut args: Vec<String> = Vec::new();
    args.push(String::from_str("-overwrite_original"));
    let mut dto = String::from_str("-DateTimeOriginal=");
    dto.append(new_dt);
    args.push(dto);
    let mut cd = String::from_str("-CreateDate=");
    cd.append(new_dt);
    args.push(cd);
    let mut md = String::from_str("-ModifyDate=");
    md.append(new_dt);
    args.push(md);
    args.push(String::from_str(file));
    args
}

} // verus!
