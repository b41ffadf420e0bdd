//! Character-level text utilities the parser and the route matcher are
//! built on: equality, single-character search, line splitting on CRLF,
//! and splitting on a separator character.

use vstd::prelude::*;

verus! {

/// Whether two strings hold the same characters.
pub fn str_eq(a: &str, b: &str) -> (r: bool)
    ensures
        r == (a@ == b@),
{
    let alen = a.unicode_len();
    let blen = b.unicode_len();
    if alen != blen {
        assert(a@ != b@);
        return false;
    }
    let mut i: usize = 0;
    while i < alen
        invariant
            alen == a@.len(),
            alen == b@.len(),
            i <= alen,
            forall|j: int| 0 <= j < i ==> a@[j] == b@[j],
        decreases alen - i,
    {
        if a.get_char(i) != b.get_char(i) {
            return false;
        }
        i = i + 1;
    }
    proof {
        assert(a@ =~= b@);
    }
    true
}

/// The index of the first occurrence of `c` in `s`, if any.
pub open spec fn spec_find_char(s: Seq<char>, c: char) -> Option<int>
    decreases s.len(),
{
    if s.len() == 0 {
        None
    } else if s[0] == c {
        Some(0)
    } else {
        match spec_find_char(s.skip(1), c) {
            Some(i) => Some(i + 1),
            None => None,
        }
    }
}

/// `spec_find_char` names the first occurrence: a hit within bounds with
/// no earlier hit, or a miss with no occurrence at all.
pub proof fn lemma_find_char(s: Seq<char>, c: char)
    ensures
        match spec_find_char(s, c) {
            Some(i) => 0 <= i < s.len() && s[i] == c && (forall|j: int| 0 <= j < i ==> s[j] != c),
            None => forall|j: int| 0 <= j < s.len() ==> s[j] != c,
        },
    decreases s.len(),
{
    if s.len() == 0 {
    } else if s[0] == c {
    } else {
        lemma_find_char(s.skip(1), c);
        match spec_find_char(s.skip(1), c) {
            Some(i) => {
                assert(s[i + 1] == c) by {
                    assert(s.skip(1)[i] == s[i + 1]);
                }
                assert forall|j: int| 0 <= j < i + 1 implies s[j] != c by {
                    if j > 0 {
                        assert(s.skip(1)[j - 1] == s[j]);
                    }
                }
            },
            None => {
                assert forall|j: int| 0 <= j < s.len() implies s[j] != c by {
                    if j > 0 {
                        assert(s.skip(1)[j - 1] == s[j]);
                    }
                }
            },
        }
    }
}

/// Finds the first occurrence of `c` in `s`.
pub fn find_char(s: &str, c: char) -> (r: Option<usize>)
    ensures
        match r {
            Some(i) => spec_find_char(s@, c) == Some(i as int),
            None => spec_find_char(s@, c) is None,
        },
{
    let len = s.unicode_len();
    let mut i: usize = 0;
    while i < len
        invariant
            len == s@.len(),
            i <= len,
            forall|j: int| 0 <= j < i ==> s@[j] != c,
        decreases len - i,
    {
        if s.get_char(i) == c {
            proof {
                lemma_find_char(s@, c);
            }
            return Some(i);
        }
        i = i + 1;
    }
    proof {
        lemma_find_char(s@, c);
    }
    None
}

/// Whether a CRLF pair starts at position `j` of `s`.
pub open spec fn spec_crlf_at(s: Seq<char>, j: int) -> bool {
    0 <= j && j + 1 < s.len() && s[j] == '\r' && s[j + 1] == '\n'
}

/// Splits off the first CRLF-terminated line: the text before the first
/// CRLF, and the text after it, or `None` when no CRLF occurs.
pub open spec fn spec_line_split(s: Seq<char>) -> (Seq<char>, Option<Seq<char>>)
    decreases s.len(),
{
    if s.len() >= 2 && s[0] == '\r' && s[1] == '\n' {
        (Seq::empty(), Some(s.skip(2)))
    } else if s.len() == 0 {
        (Seq::empty(), None)
    } else {
        let (l, r) = spec_line_split(s.skip(1));
        (seq![s[0]].add(l), r)
    }
}

/// Without any CRLF, the whole text is the line and nothing follows.
pub proof fn lemma_line_split_none(s: Seq<char>)
    requires
        forall|j: int| !spec_crlf_at(s, j),
    ensures
        spec_line_split(s) == (s, None::<Seq<char>>),
    decreases s.len(),
{
    if s.len() >= 2 && s[0] == '\r' && s[1] == '\n' {
        assert(spec_crlf_at(s, 0));
    } else if s.len() == 0 {
        assert(spec_line_split(s).0 =~= s);
    } else {
        assert forall|j: int| !spec_crlf_at(s.skip(1), j) by {
            if spec_crlf_at(s.skip(1), j) {
                assert(spec_crlf_at(s, j + 1));
            }
        }
        lemma_line_split_none(s.skip(1));
        assert(seq![s[0]].add(s.skip(1)) =~= s);
    }
}

/// With the first CRLF at `i`, the line is the text before `i` and the
/// remainder starts just past the pair.
pub proof fn lemma_line_split_at(s: Seq<char>, i: int)
    requires
        spec_crlf_at(s, i),
        forall|j: int| 0 <= j < i ==> !spec_crlf_at(s, j),
    ensures
        spec_line_split(s) == (s.take(i), Some(s.skip(i + 2))),
    decreases s.len(),
{
    if i == 0 {
        assert(s.take(0) =~= Seq::<char>::empty());
    } else {
        assert(spec_crlf_at(s.skip(1), i - 1));
        assert forall|j: int| 0 <= j < i - 1 implies !spec_crlf_at(s.skip(1), j) by {
            if spec_crlf_at(s.skip(1), j) {
                assert(spec_crlf_at(s, j + 1));
            }
        }
        lemma_line_split_at(s.skip(1), i - 1);
        assert(!spec_crlf_at(s, 0));
        assert(!(s.len() >= 2 && s[0] == '\r' && s[1] == '\n'));
        assert(seq![s[0]].add(s.skip(1).take(i - 1)) =~= s.take(i));
        assert(s.skip(1).skip(i + 1) =~= s.skip(i + 2));
    }
}

/// The remainder a line split leaves is at least two characters shorter
/// than its input.
pub proof fn lemma_line_split_len(s: Seq<char>)
    ensures
        match spec_line_split(s).1 {
            Some(r) => r.len() + 2 <= s.len(),
            None => true,
        },
    decreases s.len(),
{
    if s.len() >= 2 && s[0] == '\r' && s[1] == '\n' {
    } else if s.len() == 0 {
    } else {
        lemma_line_split_len(s.skip(1));
    }
}

/// Splits off the first CRLF-terminated line of `s`.
pub fn line_split<'a>(s: &'a str) -> (r: (&'a str, Option<&'a str>))
    ensures
        r.0@ == spec_line_split(s@).0,
        match r.1 {
            Some(rest) => spec_line_split(s@).1 == Some(rest@),
            None => spec_line_split(s@).1 is None,
        },
{
    let len = s.unicode_len();
    let mut i: usize = 0;
    while i < len && i + 1 < len
        invariant
            len == s@.len(),
            i <= len,
            forall|j: int| 0 <= j < i ==> !spec_crlf_at(s@, j),
        decreases len - i,
    {
        if s.get_char(i) == '\r' && s.get_char(i + 1) == '\n' {
            proof {
                lemma_line_split_at(s@, i as int);
            }
            let line = s.substring_char(0, i);
            let rest = s.substring_char(i + 2, len);
            proof {
                assert(s@.subrange(0, i as int) =~= s@.take(i as int));
                assert(s@.subrange(i + 2, len as int) =~= s@.skip(i + 2));
            }
            return (line, Some(rest));
        }
        i = i + 1;
    }
    proof {
        assert forall|j: int| !spec_crlf_at(s@, j) by {
            if spec_crlf_at(s@, j) {
                assert(0 <= j < i);
            }
        }
        lemma_line_split_none(s@);
    }
    (s, None)
}

/// Splits `s` on every occurrence of `c`; the result always holds at
/// least one (possibly empty) piece.
pub open spec fn spec_split_char(s: Seq<char>, c: char) -> Seq<Seq<char>>
    decreases s.len(),
{
    if s.len() == 0 {
        seq![Seq::<char>::empty()]
    } else if s[0] == c {
        seq![Seq::<char>::empty()].add(spec_split_char(s.skip(1), c))
    } else {
        let rest = spec_split_char(s.skip(1), c);
        seq![seq![s[0]].add(rest[0])].add(rest.skip(1))
    }
}

/// A split always yields at least one piece.
pub proof fn lemma_split_char_len(s: Seq<char>, c: char)
    ensures
        spec_split_char(s, c).len() >= 1,
    decreases s.len(),
{
    if s.len() > 0 {
        lemma_split_char_len(s.skip(1), c);
    }
}

/// Without the separator anywhere, the split is the whole text alone.
pub proof fn lemma_split_char_no_sep(s: Seq<char>, c: char)
    requires
        forall|j: int| 0 <= j < s.len() ==> s[j] != c,
    ensures
        spec_split_char(s, c) == seq![s],
    decreases s.len(),
{
    if s.len() == 0 {
        assert(s =~= Seq::<char>::empty());
    } else {
        assert forall|j: int| 0 <= j < s.skip(1).len() implies s.skip(1)[j] != c by {
            assert(s.skip(1)[j] == s[j + 1]);
        }
        lemma_split_char_no_sep(s.skip(1), c);
        let rest = spec_split_char(s.skip(1), c);
        assert(rest[0] == s.skip(1));
        assert(rest.skip(1) =~= Seq::<Seq<char>>::empty());
        assert(seq![s[0]] + s.skip(1) =~= s);
        assert(spec_split_char(s, c) =~= seq![s]);
    }
}

/// Splitting text that opens with a separator-free piece, the
/// separator, and a remainder yields that piece followed by the
/// remainder's split.
pub proof fn lemma_split_char_concat(a: Seq<char>, b: Seq<char>, c: char)
    requires
        forall|j: int| 0 <= j < a.len() ==> a[j] != c,
    ensures
        spec_split_char(a + seq![c] + b, c) == seq![a] + spec_split_char(b, c),
    decreases a.len(),
{
    let s = a + seq![c] + b;
    if a.len() == 0 {
        assert(s[0] == c);
        assert(s.skip(1) =~= b);
        assert(a =~= Seq::<char>::empty());
        assert(spec_split_char(s, c) =~= seq![a] + spec_split_char(b, c));
    } else {
        assert(s.len() > 0);
        assert(s[0] == a[0]);
        assert(s[0] != c);
        assert(s.skip(1) =~= a.skip(1) + seq![c] + b);
        assert forall|j: int| 0 <= j < a.skip(1).len() implies a.skip(1)[j] != c by {
            assert(a.skip(1)[j] == a[j + 1]);
        }
        lemma_split_char_concat(a.skip(1), b, c);
        let rest = spec_split_char(s.skip(1), c);
        assert(rest == seq![a.skip(1)] + spec_split_char(b, c));
        assert(rest[0] == a.skip(1));
        assert(rest.skip(1) =~= spec_split_char(b, c));
        assert(seq![s[0]] + rest[0] =~= a);
        assert(spec_split_char(s, c) =~= seq![a] + spec_split_char(b, c));
    }
}

/// Splits `s` on every occurrence of `c`.
pub fn split_char(s: &str, c: char) -> (r: Vec<String>)
    ensures
        r.deep_view() == spec_split_char(s@, c),
        r.len() >= 1,
{
    let len = s.unicode_len();
    let mut done: Vec<String> = Vec::new();
    let mut cur: String = String::new();
    let mut i: usize = 0;
    proof {
        lemma_split_char_len(s@, c);
        assert(s@.skip(0) =~= s@);
        assert(done.deep_view() =~= Seq::<Seq<char>>::empty());
        assert(cur@ + spec_split_char(s@, c)[0] =~= spec_split_char(s@, c)[0]);
        assert(spec_split_char(s@, c) =~= done.deep_view() + seq![
            cur@ + spec_split_char(s@, c)[0],
        ] + spec_split_char(s@, c).skip(1));
    }
    while i < len
        invariant
            len == s@.len(),
            i <= len,
            spec_split_char(s@.skip(i as int), c).len() >= 1,
            spec_split_char(s@, c) =~= done.deep_view() + seq![
                cur@ + spec_split_char(s@.skip(i as int), c)[0],
            ] + spec_split_char(s@.skip(i as int), c).skip(1),
        decreases len - i,
    {
        let ghost rem = s@.skip(i as int);
        let ghost rem2 = s@.skip(i + 1);
        let ghost old_done = done.deep_view();
        let ghost old_cur = cur@;
        proof {
            assert(rem.len() > 0);
            assert(rem[0] == s@[i as int]);
            assert(rem.skip(1) =~= rem2);
            lemma_split_char_len(rem2, c);
        }
        let ch = s.get_char(i);
        if ch == c {
            done.push(cur);
            cur = String::new();
            proof {
                assert(spec_split_char(rem, c) =~= seq![Seq::<char>::empty()] + spec_split_char(
                    rem2,
                    c,
                ));
                assert(old_cur + spec_split_char(rem, c)[0] =~= old_cur);
                assert(done.deep_view() =~= old_done + seq![old_cur]);
                assert(spec_split_char(s@, c) =~= done.deep_view() + seq![
                    cur@ + spec_split_char(rem2, c)[0],
                ] + spec_split_char(rem2, c).skip(1));
            }
        } else {
            let piece = s.substring_char(i, i + 1);
            cur.append(piece);
            proof {
                let rest = spec_split_char(rem2, c);
                assert(spec_split_char(rem, c) =~= seq![seq![rem[0]] + rest[0]] + rest.skip(1));
                assert(piece@ =~= seq![s@[i as int]]);
                assert(cur@ =~= old_cur + seq![rem[0]]);
                assert(cur@ + rest[0] =~= old_cur + (seq![rem[0]] + rest[0]));
                assert(spec_split_char(rem, c).skip(1) =~= rest.skip(1));
                assert(spec_split_char(s@, c) =~= done.deep_view() + seq![cur@ + rest[0]]
                    + rest.skip(1));
            }
        }
        i = i + 1;
    }
    let ghost old_done = done.deep_view();
    let ghost old_cur = cur@;
    done.push(cur);
    proof {
        assert(s@.skip(len as int) =~= Seq::<char>::empty());
        assert(spec_split_char(Seq::<char>::empty(), c)[0] =~= Seq::<char>::empty());
        assert(old_cur + spec_split_char(Seq::<char>::empty(), c)[0] =~= old_cur);
        assert(done.deep_view() =~= old_done + seq![old_cur]);
        assert(done.deep_view() =~= spec_split_char(s@, c));
        assert(done.deep_view().len() == done.len());
    }
    done
}

/// Drops every leading space of `s`.
pub open spec fn spec_trim_spaces(s: Seq<char>) -> Seq<char>
    decreases s.len(),
{
    if s.len() > 0 && s[0] == ' ' {
        spec_trim_spaces(s.skip(1))
    } else {
        s
    }
}

/// Drops every leading space of `s`.
pub fn trim_spaces<'a>(s: &'a str) -> (r: &'a str)
    ensures
        r@ == spec_trim_spaces(s@),
{
    let len = s.unicode_len();
    let mut i: usize = 0;
    proof {
        assert(s@.skip(0) =~= s@);
    }
    while i < len && s.get_char(i) == ' '
        invariant
            len == s@.len(),
            i <= len,
            spec_trim_spaces(s@) == spec_trim_spaces(s@.skip(i as int)),
        decreases len - i,
    {
        proof {
            assert(s@.skip(i as int).len() > 0);
            assert(s@.skip(i as int)[0] == s@[i as int]);
            assert(s@.skip(i as int).skip(1) =~= s@.skip(i + 1));
        }
        i = i + 1;
    }
    let r = s.substring_char(i, len);
    proof {
        assert(s@.subrange(i as int, len as int) =~= s@.skip(i as int));
        if i < len {
            assert(s@.skip(i as int)[0] == s@[i as int]);
        }
    }
    r
}

} // verus!
