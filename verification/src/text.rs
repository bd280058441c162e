//! Text helpers over `str`, stated on the sequence of characters that a string holds.

use vstd::prelude::*;
use vstd::utf8::{decode_utf8, encode_utf8, valid_utf8};

verus! {

/// Whether `c` has the Unicode property `White_Space`.
pub open spec fn is_white_space(c: char) -> bool {
    let n = c as int;
    ||| 0x09 <= n <= 0x0d
    ||| n == 0x20
    ||| n == 0x85
    ||| n == 0xa0
    ||| n == 0x1680
    ||| 0x2000 <= n <= 0x200a
    ||| n == 0x2028
    ||| n == 0x2029
    ||| n == 0x202f
    ||| n == 0x205f
    ||| n == 0x3000
}

/// Whether `s` holds nothing but white space.
pub open spec fn all_white_space(s: Seq<char>) -> bool {
    forall|i: int| 0 <= i < s.len() ==> is_white_space(#[trigger] s[i])
}

/// Whether `c` is a white-space character.
pub fn white_space(c: char) -> (r: bool)
    ensures
        r == is_white_space(c),
{
    let n: u32 = c as u32;
    (0x09 <= n && n <= 0x0d) || n == 0x20 || n == 0x85 || n == 0xa0 || n == 0x1680 || (0x2000 <= n
        && n <= 0x200a) || n == 0x2028 || n == 0x2029 || n == 0x202f || n == 0x205f || n == 0x3000
}

/// `s` without its leading white space.
pub open spec fn trimmed_start(s: Seq<char>) -> Seq<char>
    decreases s.len(),
{
    if s.len() > 0 && is_white_space(s[0]) {
        trimmed_start(s.drop_first())
    } else {
        s
    }
}

/// `s` without its trailing white space.
pub open spec fn trimmed_end(s: Seq<char>) -> Seq<char>
    decreases s.len(),
{
    if s.len() > 0 && is_white_space(s.last()) {
        trimmed_end(s.drop_last())
    } else {
        s
    }
}

/// `s` without white space at either end.
pub open spec fn trimmed(s: Seq<char>) -> Seq<char> {
    trimmed_end(trimmed_start(s))
}

/// `s` without the run of `c` at its end.
pub open spec fn without_trailing(s: Seq<char>, c: char) -> Seq<char>
    decreases s.len(),
{
    if s.len() > 0 && s.last() == c {
        without_trailing(s.drop_last(), c)
    } else {
        s
    }
}

/// Cutting a run of white space off the front leaves the trimmed text as it was.
proof fn lemma_trimmed_start_skip(s: Seq<char>, start: int)
    requires
        0 <= start <= s.len(),
        forall|i: int| 0 <= i < start ==> is_white_space(#[trigger] s[i]),
        start < s.len() ==> !is_white_space(s[start]),
    ensures
        trimmed_start(s) == s.skip(start),
    decreases s.len(),
{
    if start == 0 {
        assert(s.skip(0) =~= s);
    } else {
        let t = s.drop_first();
        assert forall|i: int| 0 <= i < start - 1 implies is_white_space(#[trigger] t[i]) by {
            assert(t[i] == s[i + 1]);
        }
        lemma_trimmed_start_skip(t, start - 1);
        assert(t.skip(start - 1) =~= s.skip(start));
    }
}

/// Cutting a run of white space off the end leaves the trimmed text as it was.
proof fn lemma_trimmed_end_take(s: Seq<char>, end: int)
    requires
        0 <= end <= s.len(),
        forall|i: int| end <= i < s.len() ==> is_white_space(#[trigger] s[i]),
        end > 0 ==> !is_white_space(s[end - 1]),
    ensures
        trimmed_end(s) == s.take(end),
    decreases s.len(),
{
    if end == s.len() {
        assert(s.take(end) =~= s);
    } else {
        let t = s.drop_last();
        lemma_trimmed_end_take(t, end);
        assert(t.take(end) =~= s.take(end));
    }
}

/// What `without_trailing` keeps, told by where it stops.
proof fn lemma_without_trailing_take(s: Seq<char>, c: char, end: int)
    requires
        0 <= end <= s.len(),
        forall|i: int| end <= i < s.len() ==> #[trigger] s[i] == c,
        end > 0 ==> s[end - 1] != c,
    ensures
        without_trailing(s, c) == s.take(end),
    decreases s.len(),
{
    if end == s.len() {
        assert(s.take(end) =~= s);
    } else {
        let t = s.drop_last();
        lemma_without_trailing_take(t, c, end);
        assert(t.take(end) =~= s.take(end));
    }
}

/// What is left when a run of `c` is cut off the end does not end in `c`, is what the text starts
/// with, and lacks nothing but `c`. Cutting again changes nothing.
pub proof fn law_without_trailing(s: Seq<char>, c: char)
    ensures
        ({
            let left = without_trailing(s, c);
            &&& left.len() > 0 ==> left.last() != c
            &&& left.is_prefix_of(s)
            &&& forall|i: int| left.len() <= i < s.len() ==> #[trigger] s[i] == c
            &&& without_trailing(left, c) == left
        }),
    decreases s.len(),
{
    if s.len() > 0 && s.last() == c {
        let t = s.drop_last();
        law_without_trailing(t, c);
        let left = without_trailing(s, c);
        assert forall|i: int| left.len() <= i < s.len() implies #[trigger] s[i] == c by {
            if i < t.len() {
                assert(t[i] == s[i]);
            }
        }
        assert(left =~= s.take(left.len() as int)) by {
            assert(left =~= t.take(left.len() as int));
        }
    }
}

proof fn lemma_all_white_space(s: Seq<char>)
    requires
        all_white_space(s),
    ensures
        trimmed_start(s) == Seq::<char>::empty(),
        trimmed_end(s) == Seq::<char>::empty(),
{
    lemma_trimmed_start_skip(s, s.len() as int);
    lemma_trimmed_end_take(s, 0);
}

proof fn lemma_trimmed_end_append(s: Seq<char>, pad: Seq<char>)
    requires
        all_white_space(pad),
    ensures
        trimmed_end(s + pad) == trimmed_end(s),
    decreases pad.len(),
{
    if pad.len() == 0 {
        assert(s + pad =~= s);
    } else {
        assert((s + pad).drop_last() =~= s + pad.drop_last());
        lemma_trimmed_end_append(s, pad.drop_last());
    }
}

/// White space behind a text is trimmed with the rest.
proof fn lemma_trimmed_append(s: Seq<char>, pad: Seq<char>)
    requires
        all_white_space(pad),
    ensures
        trimmed(s + pad) == trimmed(s),
    decreases s.len(),
{
    if s.len() == 0 {
        assert(s + pad =~= pad);
        lemma_all_white_space(pad);
    } else if is_white_space(s[0]) {
        assert((s + pad).drop_first() =~= s.drop_first() + pad);
        lemma_trimmed_append(s.drop_first(), pad);
    } else {
        lemma_trimmed_end_append(s, pad);
    }
}

/// White space before a text is trimmed with the rest.
pub proof fn lemma_trimmed_start_prepend(pad: Seq<char>, s: Seq<char>)
    requires
        all_white_space(pad),
    ensures
        trimmed_start(pad + s) == trimmed_start(s),
    decreases pad.len(),
{
    if pad.len() == 0 {
        assert(pad + s =~= s);
    } else {
        assert((pad + s).drop_first() =~= pad.drop_first() + s);
        lemma_trimmed_start_prepend(pad.drop_first(), s);
    }
}

/// Trimming the end stops at a character that is no white space.
pub proof fn lemma_trimmed_end_behind(head: Seq<char>, s: Seq<char>)
    requires
        head.len() > 0,
        !is_white_space(head.last()),
    ensures
        trimmed_end(head + s) == head + trimmed_end(s),
    decreases s.len(),
{
    if s.len() == 0 {
        assert(head + s =~= head);
        assert(head + trimmed_end(s) =~= head);
    } else if is_white_space(s.last()) {
        assert((head + s).drop_last() =~= head + s.drop_last());
        lemma_trimmed_end_behind(head, s.drop_last());
    }
}

/// Trimming the end first changes nothing.
pub proof fn lemma_trimmed_of_trimmed_end(s: Seq<char>)
    ensures
        trimmed(trimmed_end(s)) == trimmed(s),
    decreases s.len(),
{
    if s.len() > 0 && is_white_space(s.last()) {
        let pad = seq![s.last()];
        assert(s =~= s.drop_last() + pad);
        lemma_trimmed_append(s.drop_last(), pad);
        lemma_trimmed_of_trimmed_end(s.drop_last());
    }
}

/// White space round a text does not count: trimming takes it off with the rest.
pub proof fn law_trimmed_ignores_padding(before: Seq<char>, s: Seq<char>, behind: Seq<char>)
    requires
        all_white_space(before),
        all_white_space(behind),
    ensures
        trimmed(before + s + behind) == trimmed(s),
{
    lemma_trimmed_append(before + s, behind);
    lemma_trimmed_start_prepend(before, s);
}

/// Removes white space from both ends of `s`.
pub fn trim(s: &str) -> (r: &str)
    ensures
        r@ == trimmed(s@),
{
    let n: usize = s.unicode_len();
    let mut i: usize = 0;
    let mut start: usize = n;
    let mut end: usize = 0;
    for c in it: s.chars()
        invariant
            n == s@.len(),
            it.seq() == s@,
            i == it.index(),
            end <= i <= n,
            start == n || start < end,
            start == n ==> end == 0,
            forall|j: int| 0 <= j < i && j < start ==> is_white_space(#[trigger] s@[j]),
            start < n ==> !is_white_space(s@[start as int]),
            forall|j: int| end <= j < i ==> is_white_space(#[trigger] s@[j]),
            end > 0 ==> !is_white_space(s@[end - 1]),
            end > 0 ==> start < n,
    {
        if !white_space(c) {
            if start == n {
                start = i;
            }
            end = i + 1;
        }
        i = i + 1;
    }
    proof {
        lemma_trimmed_start_skip(s@, start as int);
        let t = s@.skip(start as int);
        if start == n {
            assert(t =~= Seq::<char>::empty());
        } else {
            assert forall|j: int| end - start <= j < t.len() implies is_white_space(#[trigger] t[j]) by {
                assert(t[j] == s@[j + start]);
            }
            lemma_trimmed_end_take(t, end - start);
            assert(t.take(end - start) =~= s@.subrange(start as int, end as int));
        }
        assert(s@.subrange(0, 0) =~= Seq::<char>::empty());
    }
    if start == n {
        s.substring_char(0, 0)
    } else {
        s.substring_char(start, end)
    }
}

/// Removes every `c` from the end of `s`.
pub fn trim_end_char(s: &str, c: char) -> (r: &str)
    ensures
        r@ == without_trailing(s@, c),
{
    let n: usize = s.unicode_len();
    let mut i: usize = 0;
    let mut end: usize = 0;
    for d in it: s.chars()
        invariant
            n == s@.len(),
            it.seq() == s@,
            i == it.index(),
            end <= i <= n,
            forall|j: int| end <= j < i ==> #[trigger] s@[j] == c,
            end > 0 ==> s@[end - 1] != c,
    {
        if d != c {
            end = i + 1;
        }
        i = i + 1;
    }
    proof {
        lemma_without_trailing_take(s@, c, end as int);
        assert(s@.take(end as int) =~= s@.subrange(0, end as int));
    }
    s.substring_char(0, end)
}

/// Whether two strings hold the same characters.
pub fn str_eq(a: &str, b: &str) -> (r: bool)
    ensures
        r == (a@ == b@),
{
    let x = a.as_bytes();
    let y = b.as_bytes();
    proof {
        vstd::utf8::encode_utf8_decode_utf8(a@);
        vstd::utf8::encode_utf8_decode_utf8(b@);
    }
    if x.len() != y.len() {
        return false;
    }
    let mut i: usize = 0;
    while i < x.len()
        invariant
            x@ == encode_utf8(a@),
            y@ == encode_utf8(b@),
            x@.len() == y@.len(),
            i <= x@.len(),
            forall|j: int| 0 <= j < i ==> x@[j] == y@[j],
        decreases x@.len() - i,
    {
        if x[i] != y[i] {
            return false;
        }
        i = i + 1;
    }
    assert(x@ =~= y@);
    true
}

/// What follows `prefix` in `s`, where `s` starts with it.
pub fn strip_prefix<'a>(s: &'a str, prefix: &str) -> (r: Option<&'a str>)
    ensures
        r is Some <==> prefix@.is_prefix_of(s@),
        r matches Some(rest) ==> rest@ == s@.skip(prefix@.len() as int),
{
    let n: usize = s.unicode_len();
    let m: usize = prefix.unicode_len();
    if m > n {
        return None;
    }
    assert(prefix@.is_prefix_of(s@) <==> s@.subrange(0, m as int) == prefix@) by {
        if prefix@.is_prefix_of(s@) {
            assert(s@.subrange(0, m as int) =~= prefix@);
        }
    }
    if str_eq(s.substring_char(0, m), prefix) {
        let rest = s.substring_char(m, n);
        assert(rest@ =~= s@.skip(m as int));
        Some(rest)
    } else {
        None
    }
}

/// The position of the first `c` in `s`, in characters.
pub fn find_char(s: &str, c: char) -> (r: Option<usize>)
    ensures
        r matches Some(i) ==> i < s@.len() && s@[i as int] == c && forall|j: int|
            0 <= j < i ==> s@[j] != c,
        r is None ==> !s@.contains(c),
{
    let n: usize = s.unicode_len();
    let mut i: usize = 0;
    for d in it: s.chars()
        invariant
            n == s@.len(),
            it.seq() == s@,
            i == it.index(),
            i <= n,
            forall|j: int| 0 <= j < i ==> s@[j] != c,
    {
        if d == c {
            return Some(i);
        }
        i = i + 1;
    }
    None
}

/// The text that `String::from_utf8_lossy` makes of bytes.
pub uninterp spec fn lossy_text(bytes: Seq<u8>) -> Seq<char>;

/// Calls `String::from_utf8_lossy`. The text is a function of the bytes alone; of bytes that are
/// UTF-8 it is the text that they encode, and of others nothing more is said (each part that is
/// not UTF-8 becomes a replacement character).
#[verifier::external_body]
pub(crate) fn from_utf8_lossy(bytes: &[u8]) -> (r: String)
    ensures
        r@ == lossy_text(bytes@),
        valid_utf8(bytes@) ==> r@ == decode_utf8(bytes@),
{
    String::from_utf8_lossy(bytes).into_owned()
}

/// `String::from` of a `&str` holds the characters of the `&str`.
pub assume_specification<'a>[ <std::string::String as std::convert::From<&'a str>>::from ](
    s: &str,
) -> (r: std::string::String)
    ensures
        r@ == s@,
;

/// A value converts into its own type unchanged.
pub assume_specification<Same>[ <Same as std::convert::From<Same>>::from ](t: Same) -> (r: Same)
    ensures
        r == t,
;

/// Whether `v` converts into a string of the characters `text`.
pub open spec fn converts_to<T: Into<String>>(v: T, text: Seq<char>) -> bool {
    exists|s: String| #[trigger] call_ensures(T::into, (v,), s) && s@ == text
}

/// Trimming cuts a run of white space off either end and nothing else: what is left stands in the
/// text from `r.0` to `r.1`, and it neither starts nor ends in white space.
pub proof fn law_trimmed(s: Seq<char>) -> (r: (int, int))
    ensures
        0 <= r.0 <= r.1 <= s.len(),
        trimmed(s) == s.subrange(r.0, r.1),
        forall|i: int| 0 <= i < r.0 ==> is_white_space(#[trigger] s[i]),
        forall|i: int| r.1 <= i < s.len() ==> is_white_space(#[trigger] s[i]),
        r.0 < r.1 ==> !is_white_space(s[r.0]) && !is_white_space(s[r.1 - 1]),
    decreases s.len(),
{
    if s.len() == 0 {
        assert(s.subrange(0, 0) =~= s);
        (0, 0)
    } else if is_white_space(s[0]) {
        let t = s.drop_first();
        let r = law_trimmed(t);
        assert(t.subrange(r.0, r.1) =~= s.subrange(r.0 + 1, r.1 + 1));
        assert forall|i: int| 0 <= i < r.0 + 1 implies is_white_space(#[trigger] s[i]) by {
            if i > 0 {
                assert(t[i - 1] == s[i]);
            }
        }
        assert forall|i: int| r.1 + 1 <= i < s.len() implies is_white_space(#[trigger] s[i]) by {
            assert(t[i - 1] == s[i]);
        }
        (r.0 + 1, r.1 + 1)
    } else {
        let end = lemma_trimmed_end_stops(s);
        assert(s.take(end) =~= s.subrange(0, end));
        (0, end)
    }
}

/// Where trimming the end of a text that starts with no white space stops.
proof fn lemma_trimmed_end_stops(s: Seq<char>) -> (end: int)
    requires
        s.len() > 0,
        !is_white_space(s[0]),
    ensures
        0 < end <= s.len(),
        trimmed_end(s) == s.take(end),
        forall|i: int| end <= i < s.len() ==> is_white_space(#[trigger] s[i]),
        !is_white_space(s[end - 1]),
    decreases s.len(),
{
    if is_white_space(s.last()) {
        let t = s.drop_last();
        let end = lemma_trimmed_end_stops(t);
        assert(t.take(end) =~= s.take(end));
        assert forall|i: int| end <= i < s.len() implies is_white_space(#[trigger] s[i]) by {
            if i < t.len() {
                assert(t[i] == s[i]);
            }
        }
        end
    } else {
        assert(s.take(s.len() as int) =~= s);
        s.len() as int
    }
}

/// A text that neither starts nor ends in white space is left as it is.
pub proof fn law_trimmed_leaves_the_rest(s: Seq<char>)
    requires
        s.len() > 0 ==> !is_white_space(s[0]) && !is_white_space(s.last()),
    ensures
        trimmed(s) == s,
{
}

/// A string or a `&str` that is given for a setting is taken with the characters that it holds.
pub proof fn law_settings_are_taken_as_given(owned: String, borrowed: &'static str, text: Seq<char>)
    ensures
        converts_to(owned, text) ==> text == owned@,
        converts_to(borrowed, text) ==> text == borrowed@,
{
}

} // verus!
