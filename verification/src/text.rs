//! Character-level helpers shared by the tokenizer, the expander and the tables.
//!
//! Text is modelled as `Seq<char>`, the view of `str` and `String`.

use vstd::prelude::*;
use vstd::string::*;

verus! {

/// Whether `c` is white space: the code points with the Unicode property
/// `White_Space`.
pub open spec fn is_space(c: char) -> bool {
    let n = c as u32;
    ||| 0x09 <= n <= 0x0D
    ||| n == 0x20
    ||| n == 0x85
    ||| n == 0xA0
    ||| n == 0x1680
    ||| 0x2000 <= n <= 0x200A
    ||| n == 0x2028
    ||| n == 0x2029
    ||| n == 0x202F
    ||| n == 0x205F
    ||| n == 0x3000
}

/// The length of `s` once the white space at its end is cut off.
pub open spec fn trim_end_len(s: Seq<char>) -> nat
    decreases s.len(),
{
    if s.len() > 0 && is_space(s.last()) {
        trim_end_len(s.drop_last())
    } else {
        s.len()
    }
}

/// The number of white-space characters at the start of `s`.
pub open spec fn trim_start_len(s: Seq<char>) -> nat
    decreases s.len(),
{
    if s.len() > 0 && is_space(s.first()) {
        1 + trim_start_len(s.drop_first())
    } else {
        0
    }
}

/// `s` without the white space at its end.
pub open spec fn trim_end(s: Seq<char>) -> Seq<char> {
    s.take(trim_end_len(s) as int)
}

/// `s` without the white space at its start.
pub open spec fn trim_start(s: Seq<char>) -> Seq<char> {
    s.skip(trim_start_len(s) as int)
}

/// `s` without the white space at either end.
pub open spec fn trim(s: Seq<char>) -> Seq<char> {
    trim_start(trim_end(s))
}

/// The words of `s` from position `i` on, where `word` holds the characters
/// of the word that is being read.
pub open spec fn split_from(s: Seq<char>, i: int, word: Seq<char>) -> Seq<Seq<char>>
    decreases s.len() - i,
{
    if i < 0 || i >= s.len() {
        close_word(word)
    } else if is_space(s[i]) {
        close_word(word) + split_from(s, i + 1, Seq::empty())
    } else {
        split_from(s, i + 1, word.push(s[i]))
    }
}

/// The word that ends here, if any characters were read for it.
pub open spec fn close_word(word: Seq<char>) -> Seq<Seq<char>> {
    if word.len() > 0 {
        seq![word]
    } else {
        Seq::empty()
    }
}

/// The maximal runs of characters of `s` that hold no white space, in order.
pub open spec fn split_whitespace(s: Seq<char>) -> Seq<Seq<char>> {
    split_from(s, 0, Seq::empty())
}

/// The texts of `parts` with one space between each two neighbours.
pub open spec fn join_spaced(parts: Seq<Seq<char>>) -> Seq<char>
    decreases parts.len(),
{
    if parts.len() == 0 {
        Seq::empty()
    } else if parts.len() == 1 {
        parts[0]
    } else {
        join_spaced(parts.drop_last()) + seq![' '] + parts.last()
    }
}

/// The views of the strings of `v`, in order.
pub open spec fn texts(v: Seq<String>) -> Seq<Seq<char>> {
    v.map_values(|s: String| s@)
}

/// Whether `s` begins with `prefix`.
pub open spec fn starts_with(s: Seq<char>, prefix: Seq<char>) -> bool {
    prefix.len() <= s.len() && s.take(prefix.len() as int) == prefix
}

/// Appends one character to `s`.
///
/// Trusted: the body calls `String::push`, which adds `c` at the end of the
/// string and leaves what was there before untouched.
#[verifier::external_body]
pub(crate) fn push_char(s: &mut String, c: char)
    ensures
        final(s)@ == old(s)@.push(c),
{
    s.push(c);
}

/// Whether `c` is white space.
pub fn is_whitespace(c: char) -> (b: bool)
    ensures
        b == is_space(c),
{
    let n: u32 = c as u32;
    (0x09 <= n && n <= 0x0D) || n == 0x20 || n == 0x85 || n == 0xA0 || n == 0x1680 || (0x2000 <= n
        && n <= 0x200A) || n == 0x2028 || n == 0x2029 || n == 0x202F || n == 0x205F || n == 0x3000
}

/// The characters of `s`, in order.
pub fn chars_of(s: &str) -> (v: Vec<char>)
    ensures
        v@ == s@,
{
    let mut v: Vec<char> = Vec::new();
    for c in iter: s.chars()
        invariant
            iter.seq() == s@,
            v@ == s@.take(iter.index()),
    {
        v.push(c);
    }
    v
}

/// The string made of the characters of `v` from `from` up to `to`.
pub fn string_of(v: &Vec<char>, from: usize, to: usize) -> (s: String)
    requires
        from <= to <= v.len(),
    ensures
        s@ == v@.subrange(from as int, to as int),
{
    let mut s = String::new();
    let mut i: usize = from;
    while i < to
        invariant
            from <= i <= to <= v.len(),
            s@ == v@.subrange(from as int, i as int),
        decreases to - i,
    {
        push_char(&mut s, v[i]);
        i += 1;
    }
    s
}

/// Whether two texts hold the same characters.
pub fn same_text(a: &str, b: &str) -> (same: bool)
    ensures
        same == (a@ == b@),
{
    let x = chars_of(a);
    let y = chars_of(b);
    if x.len() != y.len() {
        return false;
    }
    let mut i: usize = 0;
    while i < x.len()
        invariant
            i <= x.len(),
            x.len() == y.len(),
            x@ == a@,
            y@ == b@,
            forall|j: int| 0 <= j < i ==> x@[j] == y@[j],
        decreases x.len() - i,
    {
        if x[i] != y[i] {
            return false;
        }
        i += 1;
    }
    assert(x@ =~= y@);
    true
}

/// Whether the characters of `v` from `at` on begin with `prefix`.
pub fn has_prefix_at(v: &Vec<char>, at: usize, prefix: &str) -> (b: bool)
    requires
        at <= v.len(),
    ensures
        b == starts_with(v@.skip(at as int), prefix@),
{
    let p = chars_of(prefix);
    if p.len() > v.len() - at {
        return false;
    }
    let mut i: usize = 0;
    while i < p.len()
        invariant
            i <= p.len(),
            at + p.len() <= v.len(),
            p@ == prefix@,
            forall|j: int| 0 <= j < i ==> v@[at + j] == p@[j],
        decreases p.len() - i,
    {
        if v[at + i] != p[i] {
            assert(v@.skip(at as int).take(p.len() as int)[i as int] != p@[i as int]);
            return false;
        }
        i += 1;
    }
    assert(v@.skip(at as int).take(p.len() as int) =~= p@);
    true
}

/// The length of `v` once the white space at its end is cut off.
pub fn trimmed_end(v: &Vec<char>) -> (n: usize)
    ensures
        n == trim_end_len(v@),
        n <= v.len(),
{
    let mut n: usize = v.len();
    assert(v@.take(n as int) =~= v@);
    while n > 0 && is_whitespace(v[n - 1])
        invariant
            n <= v.len(),
            trim_end_len(v@) == trim_end_len(v@.take(n as int)),
        decreases n,
    {
        assert(v@.take(n as int).drop_last() =~= v@.take(n - 1));
        n -= 1;
    }
    n
}

/// The position of the first character of `v` before `end` that is not white
/// space, or `end` where there is none.
pub fn trimmed_start(v: &Vec<char>, end: usize) -> (n: usize)
    requires
        end <= v.len(),
    ensures
        n == trim_start_len(v@.take(end as int)),
        n <= end,
{
    let mut n: usize = 0;
    assert(v@.take(end as int).skip(0) =~= v@.take(end as int));
    while n < end && is_whitespace(v[n])
        invariant
            n <= end <= v.len(),
            trim_start_len(v@.take(end as int)) == n + trim_start_len(
                v@.take(end as int).skip(n as int),
            ),
        decreases end - n,
    {
        assert(v@.take(end as int).skip(n as int).drop_first() =~= v@.take(end as int).skip(
            n + 1,
        ));
        n += 1;
    }
    n
}

/// `s` without the white space at either end.
pub fn trim_text(s: &str) -> (t: String)
    ensures
        t@ == trim(s@),
{
    let v = chars_of(s);
    let end = trimmed_end(&v);
    let start = trimmed_start(&v, end);
    proof {
        assert(v@.take(end as int).skip(start as int) =~= v@.subrange(start as int, end as int));
    }
    string_of(&v, start, end)
}

/// The words of `s`: its maximal runs of characters that are not white space.
pub fn split_words(s: &str) -> (words: Vec<String>)
    ensures
        texts(words@) == split_whitespace(s@),
{
    let v = chars_of(s);
    let mut words: Vec<String> = Vec::new();
    let mut word = String::new();
    let mut i: usize = 0;
    assert(texts(words@) =~= Seq::<Seq<char>>::empty());
    while i < v.len()
        invariant
            i <= v.len(),
            v@ == s@,
            split_whitespace(s@) == texts(words@) + split_from(v@, i as int, word@),
        decreases v.len() - i,
    {
        let c = v[i];
        if is_whitespace(c) {
            let ghost rest = split_from(v@, i + 1, Seq::empty());
            if !word.as_str().is_empty() {
                proof {
                    assert(texts(words@.push(word)) =~= texts(words@) + close_word(word@));
                    assert(texts(words@) + (close_word(word@) + rest) =~= (texts(words@)
                        + close_word(word@)) + rest);
                }
                words.push(word);
                word = String::new();
            } else {
                proof {
                    assert(word@ =~= Seq::<char>::empty());
                    assert(close_word(word@) + rest =~= rest);
                }
            }
        } else {
            push_char(&mut word, c);
        }
        i += 1;
    }
    if !word.as_str().is_empty() {
        proof {
            assert(texts(words@.push(word)) =~= texts(words@) + close_word(word@));
        }
        words.push(word);
    } else {
        proof {
            assert(texts(words@) + close_word(word@) =~= texts(words@));
        }
    }
    words
}

/// The strings of `parts` from `from` on, with one space between neighbours.
pub fn join_words(parts: &Vec<String>, from: usize) -> (joined: String)
    requires
        from <= parts.len(),
    ensures
        joined@ == join_spaced(texts(parts@).skip(from as int)),
{
    let mut joined = String::new();
    let mut i: usize = from;
    let ghost all = texts(parts@).skip(from as int);
    assert(all.take(0) =~= Seq::<Seq<char>>::empty());
    while i < parts.len()
        invariant
            from <= i <= parts.len(),
            all == texts(parts@).skip(from as int),
            joined@ == join_spaced(all.take(i - from)),
        decreases parts.len() - i,
    {
        proof {
            assert(all.take(i - from + 1).drop_last() =~= all.take(i - from));
            assert(all.take(i - from + 1).last() == parts@[i as int]@);
        }
        if i > from {
            push_char(&mut joined, ' ');
        } else {
            assert(joined@ =~= Seq::<char>::empty());
            assert(joined@ + parts@[i as int]@ =~= parts@[i as int]@);
        }
        joined.append(parts[i].as_str());
        i += 1;
    }
    assert(all.take(i - from) =~= all);
    joined
}

/// Trimming leaves a text alone that neither starts nor ends with white
/// space.
pub proof fn lemma_trim_nothing(s: Seq<char>)
    requires
        s.len() > 0 ==> !is_space(s.first()) && !is_space(s.last()),
    ensures
        trim(s) == s,
{
    assert(trim_end_len(s) == s.len());
    assert(s.take(s.len() as int) =~= s);
    assert(trim_start_len(s) == 0);
    assert(s.skip(0) =~= s);
}

/// Whether `a` comes before `b` in the order of strings, given that the two
/// agree before position `i`: at the first position where they differ the
/// smaller code point decides, and a text comes before its extensions.
pub open spec fn less_from(a: Seq<char>, b: Seq<char>, i: int) -> bool
    decreases a.len() - i,
{
    if i < 0 || i >= b.len() {
        false
    } else if i >= a.len() {
        true
    } else if a[i] != b[i] {
        (a[i] as u32) < (b[i] as u32)
    } else {
        less_from(a, b, i + 1)
    }
}

/// Whether `a` comes before `b` in the order of strings.
pub open spec fn text_less(a: Seq<char>, b: Seq<char>) -> bool {
    less_from(a, b, 0)
}

/// No text comes before itself.
pub proof fn lemma_less_irreflexive(a: Seq<char>, i: int)
    requires
        0 <= i,
    ensures
        !less_from(a, a, i),
    decreases a.len() - i,
{
    if i < a.len() {
        lemma_less_irreflexive(a, i + 1);
    }
}

/// What comes before a text comes before everything that the text comes before.
pub proof fn lemma_less_transitive(a: Seq<char>, b: Seq<char>, c: Seq<char>, i: int)
    requires
        0 <= i,
        less_from(a, b, i),
        less_from(b, c, i),
    ensures
        less_from(a, c, i),
    decreases a.len() - i,
{
    if i < a.len() && a[i] == b[i] && b[i] == c[i] {
        lemma_less_transitive(a, b, c, i + 1);
    }
}

/// Of two texts that agree before position `i` and are not the same, one
/// comes before the other.
pub proof fn lemma_less_total(a: Seq<char>, b: Seq<char>, i: int)
    requires
        0 <= i <= a.len(),
        i <= b.len(),
        forall|j: int| 0 <= j < i ==> a[j] == b[j],
        a != b,
    ensures
        less_from(a, b, i) || less_from(b, a, i),
    decreases a.len() - i,
{
    if i < a.len() && i < b.len() {
        if a[i] == b[i] {
            lemma_less_total(a, b, i + 1);
        } else {
            vstd::utf8::char_u32_cast(a[i], a[i] as u32);
            vstd::utf8::char_u32_cast(b[i], b[i] as u32);
        }
    } else if i == a.len() && i == b.len() {
        assert(a =~= b);
    }
}

/// Whether `a` comes before `b` in the order of strings.
pub fn comes_before(a: &str, b: &str) -> (less: bool)
    ensures
        less == text_less(a@, b@),
{
    let x = chars_of(a);
    let y = chars_of(b);
    let mut i: usize = 0;
    while i < x.len() && i < y.len()
        invariant
            i <= x.len(),
            i <= y.len(),
            x@ == a@,
            y@ == b@,
            text_less(a@, b@) == less_from(x@, y@, i as int),
        decreases x.len() - i,
    {
        if x[i] != y[i] {
            return (x[i] as u32) < (y[i] as u32);
        }
        i += 1;
    }
    i < y.len()
}

/// Whether the texts of `s` stand in the order of strings: none comes before
/// one that stands before it.
pub open spec fn ordered(s: Seq<Seq<char>>) -> bool {
    forall|i: int, j: int| 0 <= i < j < s.len() ==> !text_less(#[trigger] s[j], #[trigger] s[i])
}

/// Puts `item` into the sorted list `list` at its place in the order of
/// strings, after the texts that are the same.
pub fn insert_ordered(list: &mut Vec<String>, item: String)
    requires
        ordered(texts(old(list)@)),
    ensures
        ordered(texts(final(list)@)),
        texts(final(list)@).to_multiset() == texts(old(list)@).to_multiset().insert(item@),
        final(list).len() == old(list).len() + 1,
{
    let ghost before = texts(list@);
    let mut at: usize = 0;
    while at < list.len() && !comes_before(item.as_str(), list[at].as_str())
        invariant
            at <= list.len(),
            before == texts(list@),
            forall|j: int| 0 <= j < at ==> !text_less(item@, #[trigger] before[j]),
        decreases list.len() - at,
    {
        assert(before[at as int] == list@[at as int]@);
        at += 1;
    }
    proof {
        let p = at as int;
        let after = before.insert(p, item@);
        assert(texts(list@.insert(p, item)) =~= after);
        if at < list.len() {
            assert(before[p] == list@[p]@);
        }
        assert forall|i: int, j: int| 0 <= i < j < after.len() implies !text_less(
            #[trigger] after[j],
            #[trigger] after[i],
        ) by {
            let i0 = if i < p { i } else { i - 1 };
            let j0 = if j < p { j } else { j - 1 };
            if i != p {
                assert(after[i] == before[i0]);
            }
            if j != p {
                assert(after[j] == before[j0]);
            }
            if i == p {
                // the item stands before what follows it
                assert(text_less(item@, before[p]));
                if text_less(before[j0], item@) {
                    lemma_less_transitive(before[j0], item@, before[p], 0);
                    if j0 == p {
                        lemma_less_irreflexive(before[p], 0);
                    } else {
                        assert(!text_less(before[j0], before[p]));
                    }
                }
            } else if j == p {
                assert(!text_less(item@, before[i0]));
            } else {
                assert(!text_less(before[j0], before[i0]));
            }
        }
        vstd::seq_lib::to_multiset_insert(before, p, item@);
    }
    list.insert(at, item);
}

/// The parts of `s` between the occurrences of `c`, from position `i` on,
/// where `part` holds the characters of the part that is being read. There
/// is always at least one part.
pub open spec fn split_on_from(s: Seq<char>, c: char, i: int, part: Seq<char>) -> Seq<Seq<char>>
    decreases s.len() - i,
{
    if i < 0 || i >= s.len() {
        seq![part]
    } else if s[i] == c {
        seq![part] + split_on_from(s, c, i + 1, Seq::empty())
    } else {
        split_on_from(s, c, i + 1, part.push(s[i]))
    }
}

/// The parts of `s` between the occurrences of `c`.
pub open spec fn split_on(s: Seq<char>, c: char) -> Seq<Seq<char>> {
    split_on_from(s, c, 0, Seq::empty())
}

/// The texts of `parts` with `sep` between each two neighbours.
pub open spec fn join_with(parts: Seq<Seq<char>>, sep: Seq<char>) -> Seq<char>
    decreases parts.len(),
{
    if parts.len() == 0 {
        Seq::empty()
    } else if parts.len() == 1 {
        parts[0]
    } else {
        join_with(parts.drop_last(), sep) + sep + parts.last()
    }
}

/// The parts of `s` between the occurrences of `c`.
pub fn split_at_char(s: &str, c: char) -> (parts: Vec<String>)
    ensures
        texts(parts@) == split_on(s@, c),
        parts.len() >= 1,
{
    let v = chars_of(s);
    let mut parts: Vec<String> = Vec::new();
    let mut part = String::new();
    let mut i: usize = 0;
    assert(texts(parts@) =~= Seq::<Seq<char>>::empty());
    while i < v.len()
        invariant
            i <= v.len(),
            v@ == s@,
            split_on(s@, c) == texts(parts@) + split_on_from(v@, c, i as int, part@),
        decreases v.len() - i,
    {
        if v[i] == c {
            let ghost rest = split_on_from(v@, c, i + 1, Seq::empty());
            proof {
                assert(texts(parts@.push(part)) =~= texts(parts@) + seq![part@]);
                assert(texts(parts@) + (seq![part@] + rest) =~= (texts(parts@) + seq![part@]) + rest);
            }
            parts.push(part);
            part = String::new();
        } else {
            push_char(&mut part, v[i]);
        }
        i += 1;
    }
    proof {
        assert(texts(parts@.push(part)) =~= texts(parts@) + seq![part@]);
    }
    parts.push(part);
    parts
}

/// The first `count` strings of `parts` with `sep` between neighbours.
pub fn join_first(parts: &Vec<String>, count: usize, sep: &str) -> (joined: String)
    requires
        count <= parts.len(),
    ensures
        joined@ == join_with(texts(parts@).take(count as int), sep@),
{
    let mut joined = String::new();
    let mut i: usize = 0;
    let ghost all = texts(parts@).take(count as int);
    assert(all.take(0) =~= Seq::<Seq<char>>::empty());
    while i < count
        invariant
            i <= count <= parts.len(),
            all == texts(parts@).take(count as int),
            joined@ == join_with(all.take(i as int), sep@),
        decreases count - i,
    {
        proof {
            assert(all.take(i + 1).drop_last() =~= all.take(i as int));
            assert(all.take(i + 1).last() == parts@[i as int]@);
        }
        if i > 0 {
            joined.append(sep);
        } else {
            assert(joined@ =~= Seq::<char>::empty());
            assert(joined@ + parts@[i as int]@ =~= parts@[i as int]@);
        }
        joined.append(parts[i].as_str());
        i += 1;
    }
    assert(all.take(i as int) =~= all);
    joined
}

/// What the standard library's `str::to_lowercase` gives for `s`.
pub uninterp spec fn lowercase(s: Seq<char>) -> Seq<char>;

/// `s` in small letters.
///
/// Trusted: the body calls `str::to_lowercase`; the contract only gives its
/// result a name.
#[verifier::external_body]
pub(crate) fn to_lowercase(s: &str) -> (lowered: String)
    ensures
        lowered@ == lowercase(s@),
{
    s.to_lowercase()
}

} // verus!
