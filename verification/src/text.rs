//! Pieces of text that the reports are made of: decimal numbers, padding,
//! and paths cut at their slashes.

use vstd::prelude::*;
use vstd::string::StrSliceExecFns;
use vstd::string::StringExecFns;

verus! {

/// The character of one decimal digit.
pub open spec fn digit(d: nat) -> char {
    if d == 0 {
        '0'
    } else if d == 1 {
        '1'
    } else if d == 2 {
        '2'
    } else if d == 3 {
        '3'
    } else if d == 4 {
        '4'
    } else if d == 5 {
        '5'
    } else if d == 6 {
        '6'
    } else if d == 7 {
        '7'
    } else if d == 8 {
        '8'
    } else {
        '9'
    }
}

/// A number in decimal, without sign or leading zeros.
pub open spec fn decimal(n: nat) -> Seq<char>
    decreases n,
{
    if n < 10 {
        seq![digit(n)]
    } else {
        decimal(n / 10).push(digit(n % 10))
    }
}

/// `n` spaces.
pub open spec fn spaces(n: nat) -> Seq<char> {
    Seq::new(n, |i: int| ' ')
}

/// `name`, filled up with spaces on the right to `width` characters; a name
/// that is longer stays as it is.
pub open spec fn padded(name: Seq<char>, width: nat) -> Seq<char> {
    if name.len() < width {
        name + spaces((width - name.len()) as nat)
    } else {
        name
    }
}

/// The number of bytes that a text takes in UTF-8.
pub open spec fn byte_len(s: Seq<char>) -> nat {
    vstd::utf8::encode_utf8(s).len()
}

/// A path cut at each slash. There is always at least one segment; a slash at
/// either end, or two in a row, leave an empty segment.
pub open spec fn segments(path: Seq<char>) -> Seq<Seq<char>>
    decreases path.len(),
{
    if path.len() == 0 {
        seq![Seq::empty()]
    } else {
        let before = segments(path.drop_last());
        if path.last() == '/' {
            before.push(Seq::empty())
        } else {
            before.update(before.len() - 1, before.last().push(path.last()))
        }
    }
}

/// The last segment of a path: what follows its last slash.
pub open spec fn last_segment(path: Seq<char>) -> Seq<char> {
    segments(path).last()
}

/// Whether `path` is `root` or lies below it: `root` is a prefix of it that
/// ends where a segment ends.
pub open spec fn lies_under(path: Seq<char>, root: Seq<char>) -> bool {
    &&& root.is_prefix_of(path)
    &&& (path.len() == root.len() || path[root.len() as int] == '/' || (root.len() > 0
        && root.last() == '/'))
}

/// `path` as seen from `root`: without `root` and the slash that follows it.
/// A path that does not lie under `root` stays as it is.
pub open spec fn relative(path: Seq<char>, root: Seq<char>) -> Seq<char> {
    if lies_under(path, root) {
        let rest = path.skip(root.len() as int);
        if rest.len() > 0 && rest[0] == '/' {
            rest.skip(1)
        } else {
            rest
        }
    } else {
        path
    }
}

/// The texts of a sequence of strings.
pub open spec fn texts(v: Seq<String>) -> Seq<Seq<char>> {
    v.map_values(|s: String| s@)
}

/// A path has at least one segment.
pub proof fn lemma_segments_nonempty(path: Seq<char>)
    ensures
        segments(path).len() >= 1,
    decreases path.len(),
{
    if path.len() > 0 {
        lemma_segments_nonempty(path.drop_last());
    }
}

fn digit_str(d: usize) -> (s: &'static str)
    requires
        d < 10,
    ensures
        s@ == seq![digit(d as nat)],
{
    proof {
        reveal_strlit("0");
        reveal_strlit("1");
        reveal_strlit("2");
        reveal_strlit("3");
        reveal_strlit("4");
        reveal_strlit("5");
        reveal_strlit("6");
        reveal_strlit("7");
        reveal_strlit("8");
        reveal_strlit("9");
    }
    if d == 0 {
        "0"
    } else if d == 1 {
        "1"
    } else if d == 2 {
        "2"
    } else if d == 3 {
        "3"
    } else if d == 4 {
        "4"
    } else if d == 5 {
        "5"
    } else if d == 6 {
        "6"
    } else if d == 7 {
        "7"
    } else if d == 8 {
        "8"
    } else {
        "9"
    }
}

/// The number of bytes of a text.
pub fn byte_length(s: &str) -> (n: usize)
    ensures
        n == byte_len(s@),
{
    s.as_bytes().len()
}

/// Appends a number in decimal.
pub fn push_decimal(s: &mut String, n: usize)
    ensures
        final(s)@ == old(s)@ + decimal(n as nat),
    decreases n,
{
    if n >= 10 {
        push_decimal(s, n / 10);
    }
    s.append(digit_str(n % 10));
}

/// Appends a name, filled up with spaces to `width` characters.
pub fn push_padded(s: &mut String, name: &str, width: usize)
    ensures
        final(s)@ == old(s)@ + padded(name@, width as nat),
{
    let n = name.unicode_len();
    s.append(name);
    let mut k = n;
    while k < width
        invariant
            n <= k,
            k <= width || k == n,
            n == name@.len(),
            s@ == old(s)@ + name@ + spaces((k - n) as nat),
        decreases width - k,
    {
        proof {
            reveal_strlit(" ");
        }
        s.append(" ");
        k = k + 1;
    }
}

/// Cuts a path at each slash.
pub fn split(path: &str) -> (segs: Vec<String>)
    ensures
        texts(segs@) == segments(path@),
{
    let n = path.unicode_len();
    let mut segs: Vec<String> = Vec::new();
    let mut start: usize = 0;
    let mut i: usize = 0;
    assert(path@.take(0).len() == 0);
    assert(path@.subrange(0, 0) == Seq::<char>::empty());
    assert(texts(segs@).push(Seq::<char>::empty()) == seq![Seq::<char>::empty()]);
    while i < n
        invariant
            n == path@.len(),
            start <= i <= n,
            segments(path@.take(i as int)) == texts(segs@).push(
                path@.subrange(start as int, i as int),
            ),
        decreases n - i,
    {
        let ghost before = segments(path@.take(i as int));
        assert(path@.take(i + 1).drop_last() == path@.take(i as int));
        if path.get_char(i) == '/' {
            let seg = String::from_str(path.substring_char(start, i));
            let ghost done = texts(segs@);
            segs.push(seg);
            assert(texts(segs@) == done.push(path@.subrange(start as int, i as int)));
            start = i + 1;
            assert(path@.subrange(start as int, start as int) == Seq::<char>::empty());
        } else {
            assert(path@.subrange(start as int, i + 1) == path@.subrange(
                start as int,
                i as int,
            ).push(path@[i as int]));
            assert(before.update(before.len() - 1, before.last().push(path@[i as int]))
                == texts(segs@).push(path@.subrange(start as int, i + 1)));
        }
        i = i + 1;
    }
    assert(path@.take(n as int) == path@);
    let ghost done = texts(segs@);
    segs.push(String::from_str(path.substring_char(start, n)));
    assert(texts(segs@) == done.push(path@.subrange(start as int, n as int)));
    segs
}

/// The last segment of a path.
pub fn last_segment_of(path: &str) -> (name: String)
    ensures
        name@ == last_segment(path@),
{
    let segs = split(path);
    proof {
        lemma_segments_nonempty(path@);
    }
    let last = segs.len() - 1;
    assert(texts(segs@)[last as int] == segs@[last as int]@);
    segs[last].clone()
}

/// A path as seen from a root.
pub fn relative_to(path: &str, root: &str) -> (rest: String)
    ensures
        rest@ == relative(path@, root@),
{
    let n = path.unicode_len();
    let m = root.unicode_len();
    if m > n {
        return String::from_str(path);
    }
    let mut i: usize = 0;
    while i < m
        invariant
            n == path@.len(),
            m == root@.len(),
            i <= m <= n,
            forall|j: int| 0 <= j < i ==> path@[j] == root@[j],
        decreases m - i,
    {
        if path.get_char(i) != root.get_char(i) {
            return String::from_str(path);
        }
        i = i + 1;
    }
    assert(root@.is_prefix_of(path@)) by {
        assert(root@ =~= path@.subrange(0, m as int));
    }
    if n == m {
        assert(path@.skip(m as int) =~= Seq::<char>::empty());
        String::new()
    } else if path.get_char(m) == '/' {
        assert(path@.skip(m as int).skip(1) =~= path@.subrange(m + 1, n as int));
        String::from_str(path.substring_char(m + 1, n))
    } else if m > 0 && root.get_char(m - 1) == '/' {
        assert(path@.skip(m as int) =~= path@.subrange(m as int, n as int));
        String::from_str(path.substring_char(m, n))
    } else {
        String::from_str(path)
    }
}

} // verus!
