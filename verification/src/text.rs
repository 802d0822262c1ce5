//! Text as sequences of characters: searching, trimming, splitting, joining and
//! decimal rendering, each stated over `Seq<char>`.

use vstd::prelude::*;

verus! {

/// `std::string::String::push`: appends one character.
#[verifier::external_body]
pub(crate) fn push_char(s: &mut String, c: char)
    ensures
        final(s)@ == old(s)@.push(c),
{
    s.push(c)
}

/// The characters of a string, in order.
pub fn to_chars(s: &str) -> (r: Vec<char>)
    ensures
        r@ == s@,
{
    let mut out: Vec<char> = Vec::new();
    for c in it: s.chars()
        invariant
            out@ == it.seq().take(it.index() as int),
            it.seq() == s@,
    {
        proof {
            assert(it.seq().take(it.index() + 1) =~= it.seq().take(it.index() as int).push(c));
        }
        out.push(c);
    }
    out
}

/// The string made of the given characters.
pub fn to_text(chars: &[char]) -> (r: String)
    ensures
        r@ == chars@,
{
    let mut out = String::new();
    for i in 0..chars.len()
        invariant
            out@ == chars@.take(i as int),
    {
        proof {
            assert(chars@.take(i + 1) =~= chars@.take(i as int).push(chars@[i as int]));
        }
        push_char(&mut out, chars[i]);
    }
    proof {
        assert(chars@.take(chars@.len() as int) =~= chars@);
    }
    out
}

/// `==` of `str`: whether two texts are equal, character by character.
#[verifier::external_body]
pub(crate) fn same_text(a: &str, b: &str) -> (r: bool)
    ensures
        r == (a@ == b@),
{
    a == b
}

// ---- searching ----

/// `p` stands in `s` at position `i`.
pub open spec fn occurs_at(s: Seq<char>, p: Seq<char>, i: int) -> bool {
    0 <= i && i + p.len() <= s.len() && s.subrange(i, i + p.len()) == p
}

/// `p` stands somewhere in `s`.
pub open spec fn contains_text(s: Seq<char>, p: Seq<char>) -> bool {
    exists|i: int| occurs_at(s, p, i)
}

/// The first position at or after `from` where `p` stands in `s`.
pub open spec fn find_from(s: Seq<char>, p: Seq<char>, from: int) -> Option<int>
    decreases s.len() - from + 1,
{
    if from < 0 || from + p.len() > s.len() {
        None
    } else if occurs_at(s, p, from) {
        Some(from)
    } else {
        find_from(s, p, from + 1)
    }
}

/// The last position at or before `from` where `p` stands in `s`.
pub open spec fn rfind_from(s: Seq<char>, p: Seq<char>, from: int) -> Option<int>
    decreases from + 1,
{
    if from < 0 {
        None
    } else if occurs_at(s, p, from) {
        Some(from)
    } else {
        rfind_from(s, p, from - 1)
    }
}

/// The last position where `p` stands in `s`.
pub open spec fn rfind_text(s: Seq<char>, p: Seq<char>) -> Option<int> {
    rfind_from(s, p, s.len() - p.len())
}

pub proof fn lemma_find_from(s: Seq<char>, p: Seq<char>, from: int)
    requires
        0 <= from,
    ensures
        find_from(s, p, from) matches Some(k) ==> from <= k && occurs_at(s, p, k) && forall|j: int|
            from <= j < k ==> !occurs_at(s, p, j),
        find_from(s, p, from) is None ==> forall|j: int| from <= j ==> !occurs_at(s, p, j),
    decreases s.len() - from + 1,
{
    if from + p.len() > s.len() {
    } else if occurs_at(s, p, from) {
    } else {
        lemma_find_from(s, p, from + 1);
    }
}

pub proof fn lemma_rfind_from(s: Seq<char>, p: Seq<char>, from: int)
    ensures
        rfind_from(s, p, from) matches Some(k) ==> 0 <= k <= from && occurs_at(s, p, k)
            && forall|j: int| k < j <= from ==> !occurs_at(s, p, j),
        rfind_from(s, p, from) is None ==> forall|j: int| j <= from ==> !occurs_at(s, p, j),
    decreases from + 1,
{
    if from < 0 {
    } else if occurs_at(s, p, from) {
    } else {
        lemma_rfind_from(s, p, from - 1);
    }
}

/// Looking for `p` after cutting `k` characters off the front finds the same place.
pub proof fn lemma_find_from_skip(s: Seq<char>, p: Seq<char>, k: int, from: int)
    requires
        0 <= k <= s.len(),
        0 <= from,
    ensures
        find_from(s.skip(k), p, from) == (match find_from(s, p, k + from) {
            Some(i) => Some(i - k),
            None => None,
        }),
    decreases s.len() - k - from + 1,
{
    if k + from + p.len() > s.len() {
    } else {
        assert(s.skip(k).subrange(from, from + p.len()) =~= s.subrange(
            k + from,
            k + from + p.len(),
        ));
        if !occurs_at(s, p, k + from) {
            lemma_find_from_skip(s, p, k, from + 1);
        }
    }
}

pub(crate) fn occurs(s: &[char], p: &[char], i: usize) -> (r: bool)
    ensures
        r == occurs_at(s@, p@, i as int),
{
    if p.len() > s.len() || i > s.len() - p.len() {
        return false;
    }
    let mut j: usize = 0;
    while j < p.len()
        invariant
            j <= p@.len(),
            i + p@.len() <= s@.len(),
            s@.len() == s.len(),
            s@.subrange(i as int, i + j) == p@.take(j as int),
        decreases p@.len() - j,
    {
        if s[i + j] != p[j] {
            proof {
                if s@.subrange(i as int, i + p@.len()) == p@ {
                    assert(s@.subrange(i as int, i + p@.len())[j as int] == s@[i + j]);
                }
            }
            return false;
        }
        proof {
            assert(s@.subrange(i as int, i + j + 1) =~= s@.subrange(i as int, i + j).push(
                s@[i + j],
            ));
            assert(p@.take(j + 1) =~= p@.take(j as int).push(p@[j as int]));
        }
        j = j + 1;
    }
    proof {
        assert(p@.take(p@.len() as int) =~= p@);
    }
    true
}

/// Position of the first `p` in `s` at or after `from`.
pub(crate) fn find_chars(s: &[char], p: &[char], from: usize) -> (r: Option<usize>)
    ensures
        r matches Some(k) ==> find_from(s@, p@, from as int) == Some(k as int),
        r is None ==> find_from(s@, p@, from as int) is None,
{
    let mut i: usize = from;
    while p.len() <= s.len() && i <= s.len() - p.len()
        invariant
            from <= i,
            find_from(s@, p@, from as int) == find_from(s@, p@, i as int),
        decreases s@.len() + 1 - i,
    {
        if occurs(s, p, i) {
            return Some(i);
        }
        if i == s.len() {
            proof {
                assert(s@.subrange(i as int, i as int) =~= p@);
            }
            return None;
        }
        i = i + 1;
    }
    None
}

/// Position of the last `p` in `s`.
pub(crate) fn rfind_chars(s: &[char], p: &[char]) -> (r: Option<usize>)
    ensures
        r matches Some(k) ==> rfind_text(s@, p@) == Some(k as int),
        r is None ==> rfind_text(s@, p@) is None,
{
    if p.len() > s.len() {
        return None;
    }
    let mut i: usize = s.len() - p.len();
    loop
        invariant
            p@.len() <= s@.len(),
            i <= s@.len() - p@.len(),
            rfind_text(s@, p@) == rfind_from(s@, p@, i as int),
        decreases i,
    {
        if occurs(s, p, i) {
            return Some(i);
        }
        if i == 0 {
            proof {
                assert(rfind_from(s@, p@, -1) is None);
            }
            return None;
        }
        i = i - 1;
    }
}

/// `str::contains` of a text.
pub fn contains(s: &str, p: &str) -> (r: bool)
    ensures
        r == contains_text(s@, p@),
{
    let sc = to_chars(s);
    let pc = to_chars(p);
    proof {
        lemma_find_from(s@, p@, 0);
    }
    match find_chars(sc.as_slice(), pc.as_slice(), 0) {
        Some(_) => true,
        None => false,
    }
}

/// `str::starts_with` of a text.
pub fn starts_with(s: &str, p: &str) -> (r: bool)
    ensures
        r == p@.is_prefix_of(s@),
{
    let sc = to_chars(s);
    let pc = to_chars(p);
    occurs(sc.as_slice(), pc.as_slice(), 0)
}

/// `str::ends_with` of a text.
pub fn ends_with(s: &str, p: &str) -> (r: bool)
    ensures
        r == p@.is_suffix_of(s@),
{
    let sc = to_chars(s);
    let pc = to_chars(p);
    if pc.len() > sc.len() {
        return false;
    }
    occurs(sc.as_slice(), pc.as_slice(), sc.len() - pc.len())
}

/// `str::strip_prefix` of a text.
pub open spec fn strip_prefix_spec(s: Seq<char>, p: Seq<char>) -> Option<Seq<char>> {
    if p.is_prefix_of(s) {
        Some(s.skip(p.len() as int))
    } else {
        None
    }
}

/// The rest of `s` after `p`, where `s` begins with `p`.
pub fn strip_prefix(s: &str, p: &str) -> (r: Option<String>)
    ensures
        opt_text(r) == strip_prefix_spec(s@, p@),
{
    let sc = to_chars(s);
    let pc = to_chars(p);
    if occurs(sc.as_slice(), pc.as_slice(), 0) {
        Some(sub_text(sc.as_slice(), pc.len(), sc.len()))
    } else {
        None
    }
}

/// The characters of an optional string.
pub open spec fn opt_text(o: Option<String>) -> Option<Seq<char>> {
    match o {
        Some(s) => Some(s@),
        None => None,
    }
}

/// The characters of each string.
pub open spec fn texts(v: Seq<String>) -> Seq<Seq<char>> {
    v.map_values(|s: String| s@)
}

pub broadcast proof fn lemma_texts_push(v: Seq<String>, s: String)
    ensures
        #[trigger] texts(v.push(s)) == texts(v).push(s@),
{
    assert(texts(v.push(s)) =~= texts(v).push(s@));
}

/// The part of `s` from `from` up to, not including, `to`.
pub(crate) fn sub_chars(s: &[char], from: usize, to: usize) -> (r: Vec<char>)
    requires
        from <= to <= s@.len(),
    ensures
        r@ == s@.subrange(from as int, to as int),
{
    let mut out: Vec<char> = Vec::new();
    let mut i: usize = from;
    while i < to
        invariant
            from <= i <= to <= s@.len(),
            out@ == s@.subrange(from as int, i as int),
        decreases to - i,
    {
        proof {
            assert(s@.subrange(from as int, i + 1) =~= s@.subrange(from as int, i as int).push(
                s@[i as int],
            ));
        }
        out.push(s[i]);
        i = i + 1;
    }
    out
}

/// The part of `s` from `from` up to, not including, `to`, as a string.
pub(crate) fn sub_text(s: &[char], from: usize, to: usize) -> (r: String)
    requires
        from <= to <= s@.len(),
    ensures
        r@ == s@.subrange(from as int, to as int),
{
    let part = sub_chars(s, from, to);
    to_text(part.as_slice())
}

// ---- trimming ----

/// The characters with the Unicode White_Space property.
pub open spec fn is_space_spec(c: char) -> bool {
    let n = c as u32;
    ||| 0x9 <= n <= 0xd
    ||| n == 0x20
    ||| n == 0x85
    ||| n == 0xa0
    ||| n == 0x1680
    ||| 0x2000 <= n <= 0x200a
    ||| n == 0x2028
    ||| n == 0x2029
    ||| n == 0x202f
    ||| n == 0x205f
    ||| n == 0x3000
}

pub fn is_space(c: char) -> (r: bool)
    ensures
        r == is_space_spec(c),
{
    let n: u32 = c as u32;
    (0x9 <= n && n <= 0xd) || n == 0x20 || n == 0x85 || n == 0xa0 || n == 0x1680 || (0x2000 <= n
        && n <= 0x200a) || n == 0x2028 || n == 0x2029 || n == 0x202f || n == 0x205f || n == 0x3000
}

/// A class of characters: those listed in `set`, and white space where `space` holds.
pub open spec fn in_class(c: char, set: Seq<char>, space: bool) -> bool {
    (space && is_space_spec(c)) || set.contains(c)
}

pub(crate) fn class_has(c: char, set: &[char], space: bool) -> (r: bool)
    ensures
        r == in_class(c, set@, space),
{
    if space && is_space(c) {
        return true;
    }
    let mut i: usize = 0;
    while i < set.len()
        invariant
            i <= set@.len(),
            forall|j: int| 0 <= j < i ==> set@[j] != c,
        decreases set@.len() - i,
    {
        if set[i] == c {
            return true;
        }
        i = i + 1;
    }
    false
}

/// `s` without the characters of the class at its start.
pub open spec fn trim_start_class(s: Seq<char>, set: Seq<char>, space: bool) -> Seq<char>
    decreases s.len(),
{
    if s.len() > 0 && in_class(s[0], set, space) {
        trim_start_class(s.skip(1), set, space)
    } else {
        s
    }
}

/// `s` without the characters of the class at its end.
pub open spec fn trim_end_class(s: Seq<char>, set: Seq<char>, space: bool) -> Seq<char>
    decreases s.len(),
{
    if s.len() > 0 && in_class(s.last(), set, space) {
        trim_end_class(s.drop_last(), set, space)
    } else {
        s
    }
}

pub open spec fn trim_class(s: Seq<char>, set: Seq<char>, space: bool) -> Seq<char> {
    trim_end_class(trim_start_class(s, set, space), set, space)
}

/// `str::trim`: `s` without white space at its ends.
pub open spec fn trim_spec(s: Seq<char>) -> Seq<char> {
    trim_class(s, Seq::empty(), true)
}

/// Trimming the front keeps an end piece.
pub proof fn lemma_trim_start_is_suffix(s: Seq<char>, set: Seq<char>, space: bool)
    ensures
        trim_start_class(s, set, space).len() <= s.len(),
        trim_start_class(s, set, space) == s.skip(
            s.len() - trim_start_class(s, set, space).len(),
        ),
        trim_start_class(s, set, space).len() > 0 ==> !in_class(
            trim_start_class(s, set, space)[0],
            set,
            space,
        ),
    decreases s.len(),
{
    if s.len() > 0 && in_class(s[0], set, space) {
        lemma_trim_start_is_suffix(s.skip(1), set, space);
        let t = trim_start_class(s, set, space);
        assert(s.skip(1).skip(s.len() - 1 - t.len()) =~= s.skip(s.len() - t.len()));
    } else {
        assert(s.skip(0) =~= s);
    }
}

/// Trimming the back keeps a front piece.
pub proof fn lemma_trim_end_is_prefix(s: Seq<char>, set: Seq<char>, space: bool)
    ensures
        trim_end_class(s, set, space).len() <= s.len(),
        trim_end_class(s, set, space) == s.take(trim_end_class(s, set, space).len() as int),
        trim_end_class(s, set, space).len() > 0 ==> !in_class(
            trim_end_class(s, set, space).last(),
            set,
            space,
        ),
    decreases s.len(),
{
    if s.len() > 0 && in_class(s.last(), set, space) {
        lemma_trim_end_is_prefix(s.drop_last(), set, space);
        let t = trim_end_class(s, set, space);
        assert(s.drop_last().take(t.len() as int) =~= s.take(t.len() as int));
    } else {
        assert(s.take(s.len() as int) =~= s);
    }
}

pub(crate) fn trim_start_chars(s: &[char], set: &[char], space: bool) -> (r: Vec<char>)
    ensures
        r@ == trim_start_class(s@, set@, space),
{
    let mut i: usize = 0;
    proof {
        assert(s@.skip(0) =~= s@);
    }
    while i < s.len() && class_has(s[i], set, space)
        invariant
            i <= s@.len(),
            trim_start_class(s@, set@, space) == trim_start_class(s@.skip(i as int), set@, space),
        decreases s@.len() - i,
    {
        proof {
            assert(s@.skip(i as int).skip(1) =~= s@.skip(i + 1));
        }
        i = i + 1;
    }
    sub_chars(s, i, s.len())
}

pub(crate) fn trim_end_chars(s: &[char], set: &[char], space: bool) -> (r: Vec<char>)
    ensures
        r@ == trim_end_class(s@, set@, space),
{
    let mut i: usize = s.len();
    proof {
        assert(s@.take(s@.len() as int) =~= s@);
    }
    while i > 0 && class_has(s[i - 1], set, space)
        invariant
            i <= s@.len(),
            trim_end_class(s@, set@, space) == trim_end_class(s@.take(i as int), set@, space),
        decreases i,
    {
        proof {
            assert(s@.take(i as int).drop_last() =~= s@.take(i - 1));
        }
        i = i - 1;
    }
    sub_chars(s, 0, i)
}

pub(crate) fn trim_chars(s: &[char], set: &[char], space: bool) -> (r: Vec<char>)
    ensures
        r@ == trim_class(s@, set@, space),
{
    let front = trim_start_chars(s, set, space);
    trim_end_chars(front.as_slice(), set, space)
}

/// `str::trim`.
pub fn trim(s: &str) -> (r: String)
    ensures
        r@ == trim_spec(s@),
{
    let none: Vec<char> = Vec::new();
    let chars = to_chars(s);
    let kept = trim_chars(chars.as_slice(), none.as_slice(), true);
    to_text(kept.as_slice())
}

// ---- splitting ----

/// `str::split` on one character: the pieces between the separators, empty ones
/// included.
pub open spec fn split_on(s: Seq<char>, sep: char) -> Seq<Seq<char>>
    decreases s.len(),
{
    match find_from(s, seq![sep], 0) {
        None => seq![s],
        Some(i) => if 0 <= i < s.len() {
            seq![s.take(i)] + split_on(s.skip(i + 1), sep)
        } else {
            seq![s]
        },
    }
}

pub(crate) fn find_char(s: &[char], c: char, from: usize) -> (r: Option<usize>)
    ensures
        r matches Some(k) ==> find_from(s@, seq![c], from as int) == Some(k as int) && from <= k
            < s@.len() && s@[k as int] == c && forall|j: int| from <= j < k ==> s@[j] != c,
        r is None ==> find_from(s@, seq![c], from as int) is None && forall|j: int|
            from <= j < s@.len() ==> s@[j] != c,
{
    let mut p: Vec<char> = Vec::new();
    p.push(c);
    let r = find_chars(s, p.as_slice(), from);
    proof {
        assert(p@ =~= seq![c]);
        lemma_find_from(s@, seq![c], from as int);
        assert forall|j: int| 0 <= j < s@.len() implies (occurs_at(s@, seq![c], j) <==> s@[j]
            == c) by {
            if s@[j] == c {
                assert(s@.subrange(j, j + 1) =~= seq![c]);
            } else if occurs_at(s@, seq![c], j) {
                assert(s@.subrange(j, j + 1)[0] == c);
            }
        }
    }
    r
}

/// The pieces of `s` between the separators.
pub(crate) fn split_chars(s: &[char], sep: char) -> (r: Vec<Vec<char>>)
    ensures
        r@.map_values(|v: Vec<char>| v@) == split_on(s@, sep),
{
    let mut out: Vec<Vec<char>> = Vec::new();
    let mut start: usize = 0;
    let len: usize = s.len();
    proof {
        assert(s@.skip(0) =~= s@);
        assert(out@.map_values(|v: Vec<char>| v@) + split_on(s@, sep) =~= split_on(s@, sep));
    }
    loop
        invariant
            start <= s@.len(),
            len == s@.len(),
            out@.map_values(|v: Vec<char>| v@) + split_on(s@.skip(start as int), sep) == split_on(
                s@,
                sep,
            ),
        decreases s@.len() + 1 - start,
    {
        let ghost done = out@.map_values(|v: Vec<char>| v@);
        let ghost rest = s@.skip(start as int);
        proof {
            lemma_find_from_skip(s@, seq![sep], start as int, 0);
        }
        match find_char(s, sep, start) {
            None => {
                let piece = sub_chars(s, start, s.len());
                proof {
                    assert(piece@ =~= rest);
                    assert(out@.push(piece).map_values(|v: Vec<char>| v@) =~= done + seq![rest]);
                }
                out.push(piece);
                return out;
            },
            Some(i) => {
                let piece = sub_chars(s, start, i);
                proof {
                    assert(piece@ =~= rest.take(i - start));
                    assert(rest.skip(i - start + 1) =~= s@.skip(i + 1));
                    assert(out@.push(piece).map_values(|v: Vec<char>| v@) =~= done + seq![
                        rest.take(i - start),
                    ]);
                    assert(split_on(rest, sep) == seq![rest.take(i - start)] + split_on(
                        s@.skip(i + 1),
                        sep,
                    ));
                    assert((done + seq![rest.take(i - start)]) + split_on(s@.skip(i + 1), sep)
                        =~= done + split_on(rest, sep));
                }
                out.push(piece);
                start = i + 1;
            },
        }
    }
}

/// A line without the carriage return of its line ending.
pub open spec fn strip_cr(s: Seq<char>) -> Seq<char> {
    if s.len() > 0 && s.last() == '\r' {
        s.drop_last()
    } else {
        s
    }
}

/// `str::lines`: the lines without their endings; a final line ending opens no
/// further line.
pub open spec fn lines_of(s: Seq<char>) -> Seq<Seq<char>>
    decreases s.len(),
{
    if s.len() == 0 {
        Seq::empty()
    } else {
        match find_from(s, seq!['\n'], 0) {
            None => seq![s],
            Some(i) => if 0 <= i < s.len() {
                seq![strip_cr(s.take(i))] + lines_of(s.skip(i + 1))
            } else {
                seq![s]
            },
        }
    }
}

/// `str::lines`.
pub fn lines(text: &str) -> (r: Vec<String>)
    ensures
        texts(r@) == lines_of(text@),
{
    let s = to_chars(text);
    let mut out: Vec<String> = Vec::new();
    let mut start: usize = 0;
    proof {
        assert(s@.skip(0) =~= s@);
        assert(texts(out@) + lines_of(s@) =~= lines_of(s@));
    }
    while start < s.len()
        invariant
            start <= s@.len(),
            texts(out@) + lines_of(s@.skip(start as int)) == lines_of(s@),
        decreases s@.len() - start,
    {
        let ghost done = texts(out@);
        let ghost rest = s@.skip(start as int);
        proof {
            lemma_find_from_skip(s@, seq!['\n'], start as int, 0);
        }
        match find_char(s.as_slice(), '\n', start) {
            None => {
                let piece = sub_text(s.as_slice(), start, s.len());
                proof {
                    assert(piece@ =~= rest);
                    assert(texts(out@.push(piece)) =~= done + seq![rest]);
                    assert(s@.skip(s@.len() as int) =~= Seq::<char>::empty());
                    assert(done + seq![rest] + lines_of(Seq::<char>::empty()) =~= done + seq![
                        rest,
                    ]);
                }
                out.push(piece);
                start = s.len();
            },
            Some(i) => {
                let end: usize = if i > start && s[i - 1] == '\r' {
                    i - 1
                } else {
                    i
                };
                let piece = sub_text(s.as_slice(), start, end);
                proof {
                    assert(rest.take(i - start) =~= s@.subrange(start as int, i as int));
                    assert(piece@ =~= strip_cr(rest.take(i - start)));
                    assert(rest.skip(i - start + 1) =~= s@.skip(i + 1));
                    assert(texts(out@.push(piece)) =~= done + seq![piece@]);
                    assert((done + seq![piece@]) + lines_of(s@.skip(i + 1)) =~= done + lines_of(
                        rest,
                    ));
                }
                out.push(piece);
                start = i + 1;
            },
        }
    }
    proof {
        assert(s@.skip(start as int) =~= Seq::<char>::empty());
        assert(texts(out@) + Seq::<Seq<char>>::empty() =~= texts(out@));
    }
    out
}

/// Number of characters before the first one of the class.
pub open spec fn word_len(s: Seq<char>, set: Seq<char>, space: bool) -> int
    decreases s.len(),
{
    if s.len() > 0 && !in_class(s[0], set, space) {
        1 + word_len(s.skip(1), set, space)
    } else {
        0
    }
}

/// The maximal runs of characters outside the class, in order.
/// With the class of white space this is `str::split_whitespace`.
pub open spec fn words_by(s: Seq<char>, set: Seq<char>, space: bool) -> Seq<Seq<char>>
    decreases s.len(),
{
    if s.len() == 0 {
        Seq::empty()
    } else if in_class(s[0], set, space) {
        words_by(s.skip(1), set, space)
    } else {
        let n = word_len(s, set, space);
        if 0 < n <= s.len() {
            seq![s.take(n)] + words_by(s.skip(n), set, space)
        } else {
            Seq::empty()
        }
    }
}

pub open spec fn words_of(s: Seq<char>) -> Seq<Seq<char>> {
    words_by(s, Seq::empty(), true)
}

pub proof fn lemma_word_len(s: Seq<char>, set: Seq<char>, space: bool)
    ensures
        0 <= word_len(s, set, space) <= s.len(),
        s.len() > 0 && !in_class(s[0], set, space) ==> word_len(s, set, space) > 0,
    decreases s.len(),
{
    if s.len() > 0 && !in_class(s[0], set, space) {
        lemma_word_len(s.skip(1), set, space);
    }
}

pub(crate) fn words_chars(s: &[char], set: &[char], space: bool) -> (r: Vec<String>)
    ensures
        texts(r@) == words_by(s@, set@, space),
{
    let mut out: Vec<String> = Vec::new();
    let mut i: usize = 0;
    proof {
        assert(s@.skip(0) =~= s@);
        assert(texts(out@) + words_by(s@, set@, space) =~= words_by(s@, set@, space));
    }
    while i < s.len()
        invariant
            i <= s@.len(),
            texts(out@) + words_by(s@.skip(i as int), set@, space) == words_by(s@, set@, space),
        decreases s@.len() - i,
    {
        let ghost rest = s@.skip(i as int);
        if class_has(s[i], set, space) {
            proof {
                assert(rest.skip(1) =~= s@.skip(i + 1));
            }
            i = i + 1;
        } else {
            let start: usize = i;
            proof {
                assert(s@.skip(i as int).skip(0) =~= rest);
                lemma_word_len(rest, set@, space);
            }
            while i < s.len() && !class_has(s[i], set, space)
                invariant
                    start <= i <= s@.len(),
                    rest == s@.skip(start as int),
                    word_len(rest, set@, space) == (i - start) + word_len(
                        s@.skip(i as int),
                        set@,
                        space,
                    ),
                decreases s@.len() - i,
            {
                proof {
                    assert(s@.skip(i as int).skip(1) =~= s@.skip(i + 1));
                }
                i = i + 1;
            }
            let piece = sub_text(s, start, i);
            let ghost done = texts(out@);
            proof {
                let n = word_len(rest, set@, space);
                assert(n == i - start);
                assert(piece@ =~= rest.take(n));
                assert(rest.skip(n) =~= s@.skip(i as int));
                assert(texts(out@.push(piece)) =~= done + seq![piece@]);
                assert((done + seq![piece@]) + words_by(s@.skip(i as int), set@, space) =~= done
                    + words_by(rest, set@, space));
            }
            out.push(piece);
        }
    }
    proof {
        assert(s@.skip(i as int) =~= Seq::<char>::empty());
        assert(texts(out@) + Seq::<Seq<char>>::empty() =~= texts(out@));
    }
    out
}

/// `str::split_whitespace`.
pub fn words(s: &str) -> (r: Vec<String>)
    ensures
        texts(r@) == words_of(s@),
{
    let none: Vec<char> = Vec::new();
    let chars = to_chars(s);
    words_chars(chars.as_slice(), none.as_slice(), true)
}

/// `str::split_once`: what stands before and after the first `p`.
pub open spec fn split_once_spec(s: Seq<char>, p: Seq<char>) -> Option<(Seq<char>, Seq<char>)> {
    match find_from(s, p, 0) {
        Some(i) => Some((s.take(i), s.skip(i + p.len()))),
        None => None,
    }
}

pub(crate) fn split_once_chars(s: &[char], p: &[char]) -> (r: Option<(Vec<char>, Vec<char>)>)
    ensures
        (match r {
            Some((a, b)) => Some((a@, b@)),
            None => None,
        }) == split_once_spec(s@, p@),
{
    proof {
        lemma_find_from(s@, p@, 0);
    }
    let len: usize = s.len();
    let width: usize = p.len();
    match find_chars(s, p, 0) {
        Some(i) => {
            let before = sub_chars(s, 0, i);
            let after = sub_chars(s, i + width, len);
            proof {
                assert(before@ =~= s@.take(i as int));
                assert(after@ =~= s@.skip(i + p@.len()));
            }
            Some((before, after))
        },
        None => None,
    }
}

/// `str::trim_end_matches` of a text: `s` without the `p`s at its end.
pub open spec fn trim_end_text(s: Seq<char>, p: Seq<char>) -> Seq<char>
    decreases s.len(),
{
    if p.len() > 0 && p.is_suffix_of(s) {
        trim_end_text(s.take(s.len() - p.len()), p)
    } else {
        s
    }
}

pub(crate) fn trim_end_text_chars(s: &[char], p: &[char]) -> (r: Vec<char>)
    ensures
        r@ == trim_end_text(s@, p@),
{
    let mut end: usize = s.len();
    proof {
        assert(s@.take(s@.len() as int) =~= s@);
    }
    while p.len() > 0 && p.len() <= end && occurs(s, p, end - p.len())
        invariant
            end <= s@.len(),
            trim_end_text(s@, p@) == trim_end_text(s@.take(end as int), p@),
        decreases end,
    {
        proof {
            let cur = s@.take(end as int);
            assert(cur.subrange(end - p@.len(), end as int) =~= s@.subrange(
                end - p@.len(),
                end as int,
            ));
            assert(p@.is_suffix_of(cur));
            assert(cur.take(end - p@.len()) =~= s@.take(end - p@.len()));
        }
        end = end - p.len();
    }
    proof {
        let cur = s@.take(end as int);
        if p@.len() > 0 && p@.is_suffix_of(cur) {
            assert(cur.subrange(end - p@.len(), end as int) =~= s@.subrange(
                end - p@.len(),
                end as int,
            ));
        }
    }
    sub_chars(s, 0, end)
}

/// What stands behind the last `p`, or the whole text where there is none.
pub open spec fn after_last_spec(s: Seq<char>, p: Seq<char>) -> Seq<char> {
    match rfind_text(s, p) {
        Some(i) => s.skip(i + p.len()),
        None => s,
    }
}

pub(crate) fn after_last_chars(s: &[char], p: &[char]) -> (r: Vec<char>)
    ensures
        r@ == after_last_spec(s@, p@),
{
    proof {
        lemma_rfind_from(s@, p@, s@.len() - p@.len());
    }
    let len: usize = s.len();
    let width: usize = p.len();
    match rfind_chars(s, p) {
        Some(i) => {
            let after = sub_chars(s, i + width, len);
            proof {
                assert(after@ =~= s@.skip(i + p@.len()));
            }
            after
        },
        None => {
            let whole = sub_chars(s, 0, len);
            proof {
                assert(whole@ =~= s@);
            }
            whole
        },
    }
}

// ---- joining ----

/// The parts with `sep` between each two neighbours.
pub open spec fn join_spec(parts: Seq<Seq<char>>, sep: Seq<char>) -> Seq<char>
    decreases parts.len(),
{
    if parts.len() == 0 {
        Seq::empty()
    } else if parts.len() == 1 {
        parts[0]
    } else {
        join_spec(parts.drop_last(), sep) + sep + parts.last()
    }
}

/// `[String]::join`.
pub fn join(parts: &[String], sep: &str) -> (r: String)
    ensures
        r@ == join_spec(texts(parts@), sep@),
{
    let mut out = String::new();
    let mut i: usize = 0;
    proof {
        assert(texts(parts@.take(0)) =~= Seq::<Seq<char>>::empty());
    }
    while i < parts.len()
        invariant
            i <= parts@.len(),
            out@ == join_spec(texts(parts@.take(i as int)), sep@),
        decreases parts@.len() - i,
    {
        proof {
            let next = texts(parts@.take(i + 1));
            assert(next.drop_last() =~= texts(parts@.take(i as int)));
            assert(next.last() == parts@[i as int]@);
        }
        if i > 0 {
            out.append(sep);
        }
        out.append(parts[i].as_str());
        i = i + 1;
    }
    proof {
        assert(parts@.take(parts@.len() as int) =~= parts@);
    }
    out
}

// ---- numbers ----

/// The texts one after another.
pub open spec fn concat(parts: Seq<Seq<char>>) -> Seq<char>
    decreases parts.len(),
{
    if parts.len() == 0 {
        Seq::empty()
    } else {
        concat(parts.drop_last()) + parts.last()
    }
}

/// Puts texts one after another.
pub fn concat_texts(parts: &[String]) -> (r: String)
    ensures
        r@ == concat(texts(parts@)),
{
    let ghost all = texts(parts@);
    let mut out = String::new();
    let mut i: usize = 0;
    proof {
        assert(out@ =~= concat(all.take(0)));
    }
    while i < parts.len()
        invariant
            i <= parts@.len(),
            all == texts(parts@),
            out@ == concat(all.take(i as int)),
        decreases parts@.len() - i,
    {
        proof {
            assert(all.take(i + 1).drop_last() =~= all.take(i as int));
            assert(all.take(i + 1).last() == parts@[i as int]@);
        }
        out.append(parts[i].as_str());
        i = i + 1;
    }
    proof {
        assert(all.take(all.len() as int) =~= all);
    }
    out
}

/// Blanks before a text, up to a width of four.
pub open spec fn pad_four(s: Seq<char>) -> Seq<char> {
    if s.len() == 0 {
        "    "@ + s
    } else if s.len() == 1 {
        "   "@ + s
    } else if s.len() == 2 {
        "  "@ + s
    } else if s.len() == 3 {
        " "@ + s
    } else {
        s
    }
}

/// A number right-aligned in four columns.
pub fn padded_number(n: usize) -> (r: String)
    ensures
        r@ == pad_four(decimal(n as nat)),
{
    let digits = usize_text(n);
    let len: usize = to_chars(digits.as_str()).len();
    let mut out = if len == 0 {
        "    ".to_owned()
    } else if len == 1 {
        "   ".to_owned()
    } else if len == 2 {
        "  ".to_owned()
    } else if len == 3 {
        " ".to_owned()
    } else {
        return digits;
    };
    out.append(digits.as_str());
    out
}


pub open spec fn digit(d: nat) -> char {
    if d == 0 { '0' } else if d == 1 { '1' } else if d == 2 { '2' } else if d == 3 { '3' }
    else if d == 4 { '4' } else if d == 5 { '5' } else if d == 6 { '6' } else if d == 7 { '7' }
    else if d == 8 { '8' } else { '9' }
}

/// The decimal numeral of `n`, without leading zeros.
pub open spec fn decimal(n: nat) -> Seq<char>
    decreases n,
{
    if n < 10 {
        seq![digit(n)]
    } else {
        decimal(n / 10).push(digit(n % 10))
    }
}

fn digit_char(d: u64) -> (c: char)
    requires
        d < 10,
    ensures
        c == digit(d as nat),
{
    if d == 0 { '0' } else if d == 1 { '1' } else if d == 2 { '2' } else if d == 3 { '3' }
    else if d == 4 { '4' } else if d == 5 { '5' } else if d == 6 { '6' } else if d == 7 { '7' }
    else if d == 8 { '8' } else { '9' }
}

pub fn u64_text(n: u64) -> (r: String)
    ensures
        r@ == decimal(n as nat),
    decreases n,
{
    let mut out = if n < 10 {
        String::new()
    } else {
        u64_text(n / 10)
    };
    push_char(&mut out, digit_char(n % 10));
    proof {
        if n < 10 {
            assert(out@ =~= seq![digit(n as nat)]);
        }
    }
    out
}

pub fn usize_text(n: usize) -> (r: String)
    ensures
        r@ == decimal(n as nat),
{
    u64_text(n as u64)
}

pub open spec fn digit_value(c: char) -> Option<nat> {
    if '0' <= c <= '9' {
        Some((c as u32 - '0' as u32) as nat)
    } else {
        None
    }
}

/// The value of a sequence of decimal digits; `None` where one is no digit.
pub open spec fn digits_value(s: Seq<char>) -> Option<nat>
    decreases s.len(),
{
    if s.len() == 0 {
        Some(0)
    } else {
        match (digits_value(s.drop_last()), digit_value(s.last())) {
            (Some(v), Some(d)) => Some(v * 10 + d),
            _ => None,
        }
    }
}

/// `str::parse::<usize>`: an optional plus sign and at least one digit, in range.
pub open spec fn parse_usize_spec(s: Seq<char>) -> Option<usize> {
    let body = if s.len() > 1 && s[0] == '+' {
        s.skip(1)
    } else {
        s
    };
    match digits_value(body) {
        Some(v) => if body.len() > 0 && v <= usize::MAX {
            Some(v as usize)
        } else {
            None
        },
        None => None,
    }
}

proof fn lemma_digits_prefix(s: Seq<char>, k: int)
    requires
        0 <= k <= s.len(),
    ensures
        digits_value(s.take(k)) is None ==> digits_value(s) is None,
        digits_value(s) matches Some(v) ==> digits_value(s.take(k)) matches Some(w) && w <= v,
    decreases s.len() - k,
{
    if k < s.len() {
        lemma_digits_prefix(s, k + 1);
        assert(s.take(k + 1).drop_last() =~= s.take(k));
    } else {
        assert(s.take(k) =~= s);
    }
}

pub fn parse_usize(s: &str) -> (r: Option<usize>)
    ensures
        r == parse_usize_spec(s@),
{
    let all = to_chars(s);
    let start: usize = if all.len() > 1 && all[0] == '+' {
        1
    } else {
        0
    };
    let body = sub_chars(all.as_slice(), start, all.len());
    proof {
        assert(start == 1 ==> body@ =~= s@.skip(1));
        assert(start == 0 ==> body@ =~= s@);
        assert(body@.take(0) =~= Seq::<char>::empty());
    }
    if body.len() == 0 {
        return None;
    }
    let mut value: usize = 0;
    let mut i: usize = 0;
    while i < body.len()
        invariant
            i <= body@.len(),
            body@.len() > 0,
            body@ == (if s@.len() > 1 && s@[0] == '+' {
                s@.skip(1)
            } else {
                s@
            }),
            digits_value(body@.take(i as int)) == Some(value as nat),
        decreases body@.len() - i,
    {
        let c = body[i];
        proof {
            assert(body@.take(i + 1).drop_last() =~= body@.take(i as int));
            lemma_digits_prefix(body@, i + 1);
        }
        if !('0' <= c && c <= '9') {
            return None;
        }
        let d: usize = (c as u32 - '0' as u32) as usize;
        if value > (usize::MAX - d) / 10 {
            return None;
        }
        value = value * 10 + d;
        i = i + 1;
    }
    proof {
        assert(body@.take(body@.len() as int) =~= body@);
    }
    Some(value)
}

// ---- letters ----

/// An ASCII capital as its small letter; anything else as it is.
pub open spec fn ascii_lower(c: char) -> char {
    if 'A' <= c && c <= 'Z' {
        (c as u32 + 32) as char
    } else {
        c
    }
}

/// A text with its ASCII capitals made small.
pub open spec fn ascii_lower_text(s: Seq<char>) -> Seq<char> {
    s.map_values(|c: char| ascii_lower(c))
}

fn lower_char(c: char) -> (r: char)
    ensures
        r == ascii_lower(c),
{
    if 'A' <= c && c <= 'Z' {
        ((c as u8) + 32) as char
    } else {
        c
    }
}

/// Makes the ASCII capitals of a text small.
pub fn to_ascii_lower(s: &str) -> (r: String)
    ensures
        r@ == ascii_lower_text(s@),
{
    let chars = to_chars(s);
    let mut out: Vec<char> = Vec::new();
    let mut i: usize = 0;
    while i < chars.len()
        invariant
            i <= chars@.len(),
            out@.len() == i,
            forall|j: int| 0 <= j < i ==> #[trigger] out@[j] == ascii_lower(chars@[j]),
        decreases chars@.len() - i,
    {
        out.push(lower_char(chars[i]));
        i = i + 1;
    }
    proof {
        assert(out@ =~= ascii_lower_text(s@));
    }
    to_text(out.as_slice())
}

pub open spec fn is_ascii_char(c: char) -> bool {
    c as u32 <= 0x7F
}

pub open spec fn is_ascii_text(s: Seq<char>) -> bool {
    forall|i: int| 0 <= i < s.len() ==> is_ascii_char(#[trigger] s[i])
}

/// What `str::to_lowercase` makes of a text.
pub uninterp spec fn lowercase(s: Seq<char>) -> Seq<char>;

/// A text in small letters: letter by letter where it is ASCII, else by the Unicode tables.
pub open spec fn lower_text(s: Seq<char>) -> Seq<char> {
    if is_ascii_text(s) {
        ascii_lower_text(s)
    } else {
        lowercase(s)
    }
}

/// `str::to_lowercase`: a function of the text alone, by the Unicode tables. Of an ASCII
/// text it makes the capitals small and keeps the rest.
#[verifier::external_body]
pub(crate) fn to_lowercase(s: &str) -> (r: String)
    ensures
        r@ == lowercase(s@),
        is_ascii_text(s@) ==> r@ == ascii_lower_text(s@),
{
    s.to_lowercase()
}

pub open spec fn is_ascii_alnum(c: char) -> bool {
    ('a' <= c && c <= 'z') || ('A' <= c && c <= 'Z') || ('0' <= c && c <= '9')
}

/// What `char::is_alphanumeric` answers.
pub uninterp spec fn alphanumeric(c: char) -> bool;

/// `char::is_alphanumeric`: a function of the character alone, by the Unicode tables. Of
/// the ASCII characters it accepts letters and digits.
#[verifier::external_body]
pub(crate) fn is_alphanumeric(c: char) -> (r: bool)
    ensures
        r == alphanumeric(c),
        is_ascii_char(c) ==> r == is_ascii_alnum(c),
{
    c.is_alphanumeric()
}

/// A character that names consist of: a letter, a digit or an underscore.
pub open spec fn is_name_char(c: char) -> bool {
    c == '_' || if is_ascii_char(c) {
        is_ascii_alnum(c)
    } else {
        alphanumeric(c)
    }
}

pub fn name_char(c: char) -> (r: bool)
    ensures
        r == is_name_char(c),
{
    c == '_' || is_alphanumeric(c)
}

/// The number of bytes of a text in UTF-8, as `str::len` gives it.
pub open spec fn byte_len(s: Seq<char>) -> usize {
    vstd::utf8::encode_utf8(s).len() as usize
}

/// What stands behind the last dot, or the whole text where there is none.
pub open spec fn after_last_dot(s: Seq<char>) -> Seq<char> {
    match rfind_text(s, seq!['.']) {
        Some(i) => s.skip(i + 1),
        None => s,
    }
}

pub fn last_dot_part(s: &str) -> (r: String)
    ensures
        r@ == after_last_dot(s@),
{
    let chars = to_chars(s);
    let len: usize = chars.len();
    let mut dot: Vec<char> = Vec::new();
    dot.push('.');
    proof {
        assert(dot@ =~= seq!['.']);
        lemma_rfind_from(s@, seq!['.'], s@.len() - 1);
    }
    match rfind_chars(chars.as_slice(), dot.as_slice()) {
        Some(i) => sub_text(chars.as_slice(), i + 1, len),
        None => s.to_owned(),
    }
}

// ---- optional texts and lists ----

pub open spec fn str_text(o: Option<&str>) -> Option<Seq<char>> {
    match o {
        Some(s) => Some(s@),
        None => None,
    }
}

pub open spec fn opt_texts(v: Seq<Option<String>>) -> Seq<Option<Seq<char>>> {
    v.map_values(|o: Option<String>| opt_text(o))
}

/// Whether a text stands in a list.
pub fn has_text(list: &[String], text: &str) -> (r: bool)
    ensures
        r == texts(list@).contains(text@),
{
    let mut i: usize = 0;
    while i < list.len()
        invariant
            i <= list@.len(),
            forall|j: int| 0 <= j < i ==> list@[j]@ != text@,
        decreases list@.len() - i,
    {
        if same_text(list[i].as_str(), text) {
            proof {
                assert(texts(list@)[i as int] == text@);
            }
            return true;
        }
        i = i + 1;
    }
    proof {
        if texts(list@).contains(text@) {
            let k = choose|k: int| 0 <= k < texts(list@).len() && texts(list@)[k] == text@;
            assert(list@[k]@ == text@);
        }
    }
    false
}

pub(crate) fn copy_texts(v: &Vec<String>) -> (r: Vec<String>)
    ensures
        texts(r@) == texts(v@),
{
    let mut out: Vec<String> = Vec::new();
    let mut i: usize = 0;
    while i < v.len()
        invariant
            i <= v@.len(),
            out@.len() == i,
            forall|j: int| 0 <= j < i ==> #[trigger] out@[j]@ == v@[j]@,
        decreases v@.len() - i,
    {
        out.push(v[i].clone());
        i = i + 1;
    }
    proof {
        assert(texts(out@) =~= texts(v@));
    }
    out
}

} // verus!
