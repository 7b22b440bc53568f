//! Splitting command output into lines and words, trimming, and finding
//! substrings, each stated over the characters of the text.
use crate::text::occurs_at;
use vstd::prelude::*;

verus! {

/// The Unicode `White_Space` characters, which `char::is_whitespace` accepts.
pub open spec fn is_ws(c: char) -> bool {
    let u = c as u32;
    ||| 0x09 <= u <= 0x0D
    ||| u == 0x20
    ||| u == 0x85
    ||| u == 0xA0
    ||| u == 0x1680
    ||| 0x2000 <= u <= 0x200A
    ||| u == 0x2028
    ||| u == 0x2029
    ||| u == 0x202F
    ||| u == 0x205F
    ||| u == 0x3000
}

/// Whether `c` is a white-space character.
pub fn char_is_ws(c: char) -> (r: bool)
    ensures
        r == is_ws(c),
{
    let u = c as u32;
    (0x09 <= u && u <= 0x0D) || u == 0x20 || u == 0x85 || u == 0xA0 || u == 0x1680 || (0x2000 <= u
        && u <= 0x200A) || u == 0x2028 || u == 0x2029 || u == 0x202F || u == 0x205F || u == 0x3000
}

/// The characters of `s`, in order.
pub fn to_chars(s: &str) -> (r: Vec<char>)
    ensures
        r@ == s@,
{
    let mut out: Vec<char> = Vec::new();
    for c in it: s.chars()
        invariant
            out@ == it.seq().take(it.index() as int),
            it.seq() == s@,
    {
        out.push(c);
    }
    out
}

/// `s` without its leading white space.
pub open spec fn trim_start_spec(s: Seq<char>) -> Seq<char>
    decreases s.len(),
{
    if s.len() > 0 && is_ws(s[0]) {
        trim_start_spec(s.drop_first())
    } else {
        s
    }
}

/// `s` without its trailing white space.
pub open spec fn trim_end_spec(s: Seq<char>) -> Seq<char>
    decreases s.len(),
{
    if s.len() > 0 && is_ws(s.last()) {
        trim_end_spec(s.drop_last())
    } else {
        s
    }
}

/// `s` without leading and trailing white space, as `str::trim` gives it.
pub open spec fn trim_spec(s: Seq<char>) -> Seq<char> {
    trim_end_spec(trim_start_spec(s))
}

proof fn lemma_trim_start_skip(s: Seq<char>, k: int)
    requires
        0 <= k <= s.len(),
        forall|j: int| 0 <= j < k ==> is_ws(s[j]),
    ensures
        trim_start_spec(s) == trim_start_spec(s.skip(k)),
    decreases k,
{
    if k > 0 {
        assert(s.drop_first().skip(k - 1) =~= s.skip(k));
        lemma_trim_start_skip(s.drop_first(), k - 1);
    } else {
        assert(s.skip(0) =~= s);
    }
}

proof fn lemma_trim_end_take(s: Seq<char>, k: int)
    requires
        0 <= k <= s.len(),
        forall|j: int| k <= j < s.len() ==> is_ws(s[j]),
    ensures
        trim_end_spec(s) == trim_end_spec(s.take(k)),
    decreases s.len() - k,
{
    if k < s.len() {
        assert(s.drop_last().take(k) =~= s.take(k));
        lemma_trim_end_take(s.drop_last(), k);
    } else {
        assert(s.take(k) =~= s);
    }
}

/// `s` without leading and trailing white space.
pub fn str_trim(s: &str) -> (r: &str)
    ensures
        r@ == trim_spec(s@),
{
    let cs = to_chars(s);
    let n = cs.len();
    let mut i: usize = 0;
    while i < n && char_is_ws(cs[i])
        invariant
            i <= n,
            n == s@.len(),
            cs@ == s@,
            forall|j: int| 0 <= j < i ==> is_ws(s@[j]),
        decreases n - i,
    {
        i = i + 1;
    }
    let mut e: usize = n;
    while e > i && char_is_ws(cs[e - 1])
        invariant
            i <= e <= n,
            n == s@.len(),
            cs@ == s@,
            forall|j: int| e <= j < n ==> is_ws(s@[j]),
        decreases e,
    {
        e = e - 1;
    }
    proof {
        lemma_trim_start_skip(s@, i as int);
        let t = s@.skip(i as int);
        if i < n {
            assert(t[0] == s@[i as int]);
            assert(!is_ws(t[0]));
        }
        assert(trim_start_spec(t) == t);
        assert forall|j: int| e - i <= j < t.len() implies is_ws(t[j]) by {
            assert(t[j] == s@[j + i]);
        }
        lemma_trim_end_take(t, e - i);
        let u = t.take(e - i);
        if e > i {
            assert(u.last() == s@[e - 1]);
        }
        assert(trim_end_spec(u) == u);
        assert(u =~= s@.subrange(i as int, e as int));
    }
    s.substring_char(i, e)
}

/// The pieces of `s` between occurrences of `sep`, as `str::split` with a
/// character gives them: one more piece than there are separators.
pub open spec fn split_spec(s: Seq<char>, sep: char) -> Seq<Seq<char>>
    decreases s.len(),
{
    if s.len() == 0 {
        seq![Seq::<char>::empty()]
    } else {
        let rest = split_spec(s.drop_last(), sep);
        if s.last() == sep {
            rest.push(Seq::<char>::empty())
        } else {
            rest.update(rest.len() - 1, rest.last().push(s.last()))
        }
    }
}

/// The views of a list of strings.
pub open spec fn views(v: Seq<String>) -> Seq<Seq<char>> {
    v.map_values(|x: String| x@)
}

proof fn lemma_split_len(s: Seq<char>, sep: char)
    ensures
        split_spec(s, sep).len() >= 1,
    decreases s.len(),
{
    if s.len() > 0 {
        lemma_split_len(s.drop_last(), sep);
    }
}

/// The pieces of `s` between occurrences of `sep`.
pub fn str_split_char(s: &str, sep: char) -> (r: Vec<String>)
    ensures
        views(r@) == split_spec(s@, sep),
{
    let cs = to_chars(s);
    let n = cs.len();
    let mut out: Vec<String> = Vec::new();
    let mut start: usize = 0;
    let mut i: usize = 0;
    proof {
        assert(views(out@) =~= Seq::<Seq<char>>::empty());
        assert(s@.take(0) =~= Seq::<char>::empty());
        assert(views(out@).push(s@.subrange(0, 0)) =~= seq![Seq::<char>::empty()]);
    }
    while i < n
        invariant
            start <= i <= n,
            n == s@.len(),
            cs@ == s@,
            views(out@).push(s@.subrange(start as int, i as int)) == split_spec(s@.take(i as int), sep),
        decreases n - i,
    {
        proof {
            assert(s@.take(i + 1).drop_last() =~= s@.take(i as int));
            assert(s@.take(i + 1).last() == s@[i as int]);
            lemma_split_len(s@.take(i as int), sep);
        }
        if cs[i] == sep {
            let ghost pre_out = out@;
            let ghost old_start = start;
            let piece = s.substring_char(start, i).to_owned();
            assert(piece@ == s@.subrange(old_start as int, i as int));
            out.push(piece);
            start = i + 1;
            proof {
                assert(out@ == pre_out.push(piece));
                assert(views(out@) =~= views(pre_out).push(s@.subrange(old_start as int, i as int)));
                assert(s@.subrange(start as int, i + 1) =~= Seq::<char>::empty());
            }
        } else {
            proof {
                let prev = views(out@).push(s@.subrange(start as int, i as int));
                assert(s@.subrange(start as int, i + 1) =~= s@.subrange(start as int, i as int).push(s@[i as int]));
                assert(views(out@).push(s@.subrange(start as int, i + 1)) =~= prev.update(prev.len() - 1, prev.last().push(s@[i as int])));
            }
        }
        i = i + 1;
    }
    let ghost pre_out = out@;
    let last = s.substring_char(start, n).to_owned();
    out.push(last);
    proof {
        assert(s@.take(n as int) =~= s@);
        assert(views(out@) =~= views(pre_out).push(s@.subrange(start as int, n as int)));
    }
    out
}

/// `p` without one trailing carriage return.
pub open spec fn strip_cr(p: Seq<char>) -> Seq<char> {
    if p.len() > 0 && p.last() == '\r' {
        p.drop_last()
    } else {
        p
    }
}

/// The lines of `s`, as `str::lines` gives them: split at each line feed,
/// a carriage return before the line feed removed, and no empty last line
/// after a final line feed.
pub open spec fn lines_spec(s: Seq<char>) -> Seq<Seq<char>> {
    let ps = split_spec(s, '\n');
    let init = ps.drop_last().map_values(|p: Seq<char>| strip_cr(p));
    if ps.last().len() > 0 {
        init.push(ps.last())
    } else {
        init
    }
}

/// `p` without one trailing carriage return.
fn str_strip_cr(p: &str) -> (r: String)
    ensures
        r@ == strip_cr(p@),
{
    let n = p.unicode_len();
    if n > 0 && p.get_char(n - 1) == '\r' {
        let r = p.substring_char(0, n - 1).to_owned();
        assert(r@ =~= p@.drop_last());
        r
    } else {
        p.to_owned()
    }
}

/// The lines of `s`.
pub fn str_lines(s: &str) -> (r: Vec<String>)
    ensures
        views(r@) == lines_spec(s@),
{
    let pieces = str_split_char(s, '\n');
    let ghost ps = split_spec(s@, '\n');
    proof {
        lemma_split_len(s@, '\n');
    }
    assert(views(pieces@) == ps);
    assert(pieces@.len() == ps.len());
    let m = pieces.len() - 1;
    let mut out: Vec<String> = Vec::new();
    let mut i: usize = 0;
    while i < m
        invariant
            i <= m,
            m + 1 == pieces@.len(),
            views(pieces@) == ps,
            views(out@) == ps.drop_last().take(i as int).map_values(|p: Seq<char>| strip_cr(p)),
        decreases m - i,
    {
        let ghost pre = out@;
        let line = str_strip_cr(pieces[i].as_str());
        let ghost lv = line@;
        proof {
            assert(ps[i as int] == pieces@[i as int]@);
            assert(lv == strip_cr(ps.drop_last()[i as int]));
        }
        out.push(line);
        proof {
            assert(views(out@) =~= views(pre).push(lv));
            assert(views(out@) =~= ps.drop_last().take(i + 1).map_values(|p: Seq<char>| strip_cr(p)));
        }
        i = i + 1;
    }
    proof {
        assert(ps.drop_last().take(m as int) =~= ps.drop_last());
        assert(ps.last() == pieces@[m as int]@);
    }
    if pieces[m].unicode_len() > 0 {
        let ghost pre = out@;
        let last = pieces[m].clone();
        out.push(last);
        proof {
            assert(views(out@) =~= views(pre).push(ps.last()));
        }
    }
    out
}

/// The pieces of `s` between white-space characters.
pub open spec fn split_ws_spec(s: Seq<char>) -> Seq<Seq<char>>
    decreases s.len(),
{
    if s.len() == 0 {
        seq![Seq::<char>::empty()]
    } else {
        let rest = split_ws_spec(s.drop_last());
        if is_ws(s.last()) {
            rest.push(Seq::<char>::empty())
        } else {
            rest.update(rest.len() - 1, rest.last().push(s.last()))
        }
    }
}

/// The non-empty pieces of `ps`, in order.
pub open spec fn nonempty(ps: Seq<Seq<char>>) -> Seq<Seq<char>>
    decreases ps.len(),
{
    if ps.len() == 0 {
        Seq::empty()
    } else {
        let r = nonempty(ps.drop_last());
        if ps.last().len() > 0 {
            r.push(ps.last())
        } else {
            r
        }
    }
}

/// The words of `s`, as `str::split_whitespace` gives them.
pub open spec fn words_spec(s: Seq<char>) -> Seq<Seq<char>> {
    nonempty(split_ws_spec(s))
}

proof fn lemma_split_ws_len(s: Seq<char>)
    ensures
        split_ws_spec(s).len() >= 1,
    decreases s.len(),
{
    if s.len() > 0 {
        lemma_split_ws_len(s.drop_last());
    }
}

/// The words of `s`: its maximal runs of non-white-space characters.
pub fn str_split_whitespace(s: &str) -> (r: Vec<String>)
    ensures
        views(r@) == words_spec(s@),
{
    let cs = to_chars(s);
    let n = cs.len();
    let mut out: Vec<String> = Vec::new();
    let mut start: usize = 0;
    let mut i: usize = 0;
    proof {
        assert(views(out@) =~= Seq::<Seq<char>>::empty());
        assert(s@.take(0) =~= Seq::<char>::empty());
        assert(split_ws_spec(s@.take(0)).drop_last() =~= Seq::<Seq<char>>::empty());
    }
    while i < n
        invariant
            start <= i <= n,
            n == s@.len(),
            cs@ == s@,
            split_ws_spec(s@.take(i as int)).len() >= 1,
            split_ws_spec(s@.take(i as int)).last() == s@.subrange(start as int, i as int),
            views(out@) == nonempty(split_ws_spec(s@.take(i as int)).drop_last()),
        decreases n - i,
    {
        let ghost prev = split_ws_spec(s@.take(i as int));
        proof {
            assert(s@.take(i + 1).drop_last() =~= s@.take(i as int));
            assert(s@.take(i + 1).last() == s@[i as int]);
        }
        if char_is_ws(cs[i]) {
            let ghost pre_out = out@;
            let ghost old_start = start;
            if start < i {
                let piece = s.substring_char(start, i).to_owned();
                out.push(piece);
                proof {
                    assert(views(out@) =~= views(pre_out).push(s@.subrange(old_start as int, i as int)));
                }
            }
            start = i + 1;
            proof {
                let next = prev.push(Seq::<char>::empty());
                assert(split_ws_spec(s@.take(i + 1)) == next);
                assert(next.drop_last() =~= prev);
                assert(prev.drop_last().push(prev.last()) =~= prev);
                assert(nonempty(prev) == (if prev.last().len() > 0 { nonempty(prev.drop_last()).push(prev.last()) } else { nonempty(prev.drop_last()) }));
                assert(s@.subrange(start as int, i + 1) =~= Seq::<char>::empty());
            }
        } else {
            proof {
                let next = prev.update(prev.len() - 1, prev.last().push(s@[i as int]));
                assert(split_ws_spec(s@.take(i + 1)) == next);
                assert(next.drop_last() =~= prev.drop_last());
                assert(s@.subrange(start as int, i + 1) =~= s@.subrange(start as int, i as int).push(s@[i as int]));
            }
        }
        i = i + 1;
    }
    proof {
        assert(s@.take(n as int) =~= s@);
    }
    let ghost ps = split_ws_spec(s@);
    proof {
        assert(ps.drop_last().push(ps.last()) =~= ps);
    }
    if start < n {
        let ghost pre_out = out@;
        let piece = s.substring_char(start, n).to_owned();
        out.push(piece);
        proof {
            assert(views(out@) =~= views(pre_out).push(s@.subrange(start as int, n as int)));
        }
    }
    out
}

/// The first position at or after `i` where `needle` occurs in `hay`.
pub open spec fn find_from(hay: Seq<char>, needle: Seq<char>, i: int) -> Option<int>
    decreases hay.len() + 1 - i,
{
    if i < 0 || i + needle.len() > hay.len() {
        None
    } else if occurs_at(hay, needle, i) {
        Some(i)
    } else {
        find_from(hay, needle, i + 1)
    }
}

/// The first position where `needle` occurs in `hay`, as `str::find` gives
/// it (counted in characters).
pub open spec fn find_spec(hay: Seq<char>, needle: Seq<char>) -> Option<int> {
    find_from(hay, needle, 0)
}

/// Whether `needle` occurs in `hay` at position `at`.
fn chars_occur_at(hay: &Vec<char>, needle: &Vec<char>, at: usize) -> (r: bool)
    requires
        at + needle@.len() <= hay@.len(),
    ensures
        r == occurs_at(hay@, needle@, at as int),
{
    let n = needle.len();
    let mut j: usize = 0;
    while j < n
        invariant
            j <= n,
            n == needle@.len(),
            at + n <= hay@.len(),
            hay@.len() == hay.len(),
            forall|k: int| 0 <= k < j ==> hay@[at + k] == needle@[k],
        decreases n - j,
    {
        if hay[at + j] != needle[j] {
            proof {
                assert(hay@.subrange(at as int, at + n)[j as int] != needle@[j as int]);
            }
            return false;
        }
        j = j + 1;
    }
    proof {
        assert(hay@.subrange(at as int, at + n) =~= needle@);
    }
    true
}

/// The first position at or after `from` where `needle` occurs in `hay`.
pub fn chars_find_from(hay: &Vec<char>, needle: &Vec<char>, from: usize) -> (r: Option<usize>)
    ensures
        match find_from(hay@, needle@, from as int) {
            Some(k) => r == Some(k as usize),
            None => r is None,
        },
{
    let h = hay.len();
    let n = needle.len();
    if n > h || from > h - n {
        return None;
    }
    let mut i: usize = from;
    loop
        invariant
            from <= i,
            n <= h,
            h == hay@.len(),
            n == needle@.len(),
            i <= h - n,
            find_from(hay@, needle@, from as int) == find_from(hay@, needle@, i as int),
        decreases h - n - i,
    {
        if chars_occur_at(hay, needle, i) {
            return Some(i);
        }
        if i == h - n {
            assert(find_from(hay@, needle@, i + 1) is None);
            return None;
        }
        i = i + 1;
    }
}

/// The first position where `needle` occurs in `hay`, counted in characters.
pub fn str_find(hay: &str, needle: &str) -> (r: Option<usize>)
    ensures
        match find_spec(hay@, needle@) {
            Some(k) => r == Some(k as usize),
            None => r is None,
        },
{
    let h = to_chars(hay);
    let n = to_chars(needle);
    chars_find_from(&h, &n, 0)
}

/// The last position of `c` in `s`.
pub open spec fn rfind_char_spec(s: Seq<char>, c: char) -> Option<int>
    decreases s.len(),
{
    if s.len() == 0 {
        None
    } else if s.last() == c {
        Some(s.len() - 1)
    } else {
        rfind_char_spec(s.drop_last(), c)
    }
}

/// The last position of `c` in `s`, counted in characters.
pub fn str_rfind_char(s: &str, c: char) -> (r: Option<usize>)
    ensures
        match rfind_char_spec(s@, c) {
            Some(k) => r == Some(k as usize),
            None => r is None,
        },
{
    let cs = to_chars(s);
    let mut i: usize = cs.len();
    proof {
        assert(s@.take(i as int) =~= s@);
    }
    while i > 0
        invariant
            i <= s@.len(),
            cs@ == s@,
            rfind_char_spec(s@, c) == rfind_char_spec(s@.take(i as int), c),
        decreases i,
    {
        proof {
            assert(s@.take(i as int).drop_last() =~= s@.take(i - 1));
            assert(s@.take(i as int).last() == s@[i - 1]);
        }
        if cs[i - 1] == c {
            return Some(i - 1);
        }
        i = i - 1;
    }
    None
}

/// The first position of `c` in `s`.
pub open spec fn find_char_spec(s: Seq<char>, c: char) -> Option<int>
    decreases s.len(),
{
    if s.len() == 0 {
        None
    } else if s[0] == c {
        Some(0)
    } else {
        match find_char_spec(s.drop_first(), c) {
            Some(k) => Some(k + 1),
            None => None,
        }
    }
}

proof fn lemma_find_char_skip(s: Seq<char>, c: char, k: int)
    requires
        0 <= k <= s.len(),
        forall|j: int| 0 <= j < k ==> s[j] != c,
    ensures
        find_char_spec(s, c) == (match find_char_spec(s.skip(k), c) {
            Some(m) => Some(m + k),
            None => None::<int>,
        }),
    decreases k,
{
    if k == 0 {
        assert(s.skip(0) =~= s);
        match find_char_spec(s, c) {
            Some(m) => {},
            None => {},
        }
    } else {
        assert(s.drop_first().skip(k - 1) =~= s.skip(k));
        lemma_find_char_skip(s.drop_first(), c, k - 1);
    }
}

/// The first position of `c` in `s`, counted in characters.
pub fn str_find_char(s: &str, c: char) -> (r: Option<usize>)
    ensures
        match find_char_spec(s@, c) {
            Some(k) => r == Some(k as usize) && 0 <= k < s@.len() && s@[k] == c,
            None => r is None,
        },
{
    let cs = to_chars(s);
    let n = cs.len();
    let mut i: usize = 0;
    while i < n
        invariant
            i <= n,
            n == s@.len(),
            cs@ == s@,
            forall|j: int| 0 <= j < i ==> s@[j] != c,
        decreases n - i,
    {
        if cs[i] == c {
            proof {
                lemma_find_char_skip(s@, c, i as int);
                assert(s@.skip(i as int)[0] == c);
            }
            return Some(i);
        }
        i = i + 1;
    }
    proof {
        lemma_find_char_skip(s@, c, n as int);
        assert(s@.skip(n as int).len() == 0);
    }
    None
}

/// `s` without its leading `+` and `*` characters.
pub open spec fn trim_start_marks_spec(s: Seq<char>) -> Seq<char>
    decreases s.len(),
{
    if s.len() > 0 && (s[0] == '+' || s[0] == '*') {
        trim_start_marks_spec(s.drop_first())
    } else {
        s
    }
}

proof fn lemma_trim_marks_skip(s: Seq<char>, k: int)
    requires
        0 <= k <= s.len(),
        forall|j: int| 0 <= j < k ==> s[j] == '+' || s[j] == '*',
    ensures
        trim_start_marks_spec(s) == trim_start_marks_spec(s.skip(k)),
    decreases k,
{
    if k > 0 {
        assert(s.drop_first().skip(k - 1) =~= s.skip(k));
        lemma_trim_marks_skip(s.drop_first(), k - 1);
    } else {
        assert(s.skip(0) =~= s);
    }
}

/// `s` without its leading `+` and `*` characters.
pub fn str_trim_start_marks(s: &str) -> (r: &str)
    ensures
        r@ == trim_start_marks_spec(s@),
{
    let cs = to_chars(s);
    let n = cs.len();
    let mut i: usize = 0;
    while i < n && (cs[i] == '+' || cs[i] == '*')
        invariant
            i <= n,
            n == s@.len(),
            cs@ == s@,
            forall|j: int| 0 <= j < i ==> s@[j] == '+' || s@[j] == '*',
        decreases n - i,
    {
        i = i + 1;
    }
    proof {
        lemma_trim_marks_skip(s@, i as int);
        assert(s@.skip(i as int) =~= s@.subrange(i as int, n as int));
    }
    s.substring_char(i, n)
}

/// The first position of a white-space character in `s`.
pub open spec fn find_ws_spec(s: Seq<char>) -> Option<int>
    decreases s.len(),
{
    if s.len() == 0 {
        None
    } else if is_ws(s[0]) {
        Some(0)
    } else {
        match find_ws_spec(s.drop_first()) {
            Some(k) => Some(k + 1),
            None => None,
        }
    }
}

proof fn lemma_find_ws_skip(s: Seq<char>, k: int)
    requires
        0 <= k <= s.len(),
        forall|j: int| 0 <= j < k ==> !is_ws(s[j]),
    ensures
        find_ws_spec(s) == (match find_ws_spec(s.skip(k)) {
            Some(m) => Some(m + k),
            None => None::<int>,
        }),
    decreases k,
{
    if k == 0 {
        assert(s.skip(0) =~= s);
        match find_ws_spec(s) {
            Some(m) => {},
            None => {},
        }
    } else {
        assert(s.drop_first().skip(k - 1) =~= s.skip(k));
        lemma_find_ws_skip(s.drop_first(), k - 1);
    }
}

/// The first position of a white-space character in `s`.
pub fn str_find_ws(s: &str) -> (r: Option<usize>)
    ensures
        match find_ws_spec(s@) {
            Some(k) => r matches Some(j) && j as int == k && 0 <= k < s@.len(),
            None => r is None,
        },
{
    let cs = to_chars(s);
    let n = cs.len();
    let mut i: usize = 0;
    while i < n
        invariant
            i <= n,
            n == s@.len(),
            cs@ == s@,
            forall|j: int| 0 <= j < i ==> !is_ws(s@[j]),
        decreases n - i,
    {
        if char_is_ws(cs[i]) {
            proof {
                lemma_find_ws_skip(s@, i as int);
                assert(is_ws(s@.skip(i as int)[0]));
            }
            return Some(i);
        }
        i = i + 1;
    }
    proof {
        lemma_find_ws_skip(s@, n as int);
        assert(s@.skip(n as int).len() == 0);
    }
    None
}

/// A position `find_from` gives is an occurrence at or after `i`.
pub proof fn lemma_find_from_found(hay: Seq<char>, needle: Seq<char>, i: int)
    ensures
        find_from(hay, needle, i) matches Some(k) ==> i <= k && occurs_at(hay, needle, k),
    decreases hay.len() + 1 - i,
{
    if !(i < 0 || i + needle.len() > hay.len()) && !occurs_at(hay, needle, i) {
        lemma_find_from_found(hay, needle, i + 1);
    }
}

/// A position `rfind_char_spec` gives holds the character.
pub proof fn lemma_rfind_char_in_range(s: Seq<char>, c: char)
    ensures
        rfind_char_spec(s, c) matches Some(k) ==> 0 <= k < s.len() && s[k] == c,
    decreases s.len(),
{
    if s.len() > 0 && s.last() != c {
        lemma_rfind_char_in_range(s.drop_last(), c);
    }
}

} // verus!
