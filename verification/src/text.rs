//! Character-level text helpers: escaping, ordering, sorting and joining.

use vstd::prelude::*;
use vstd::string::StrSliceExecFns;
use vstd::string::StringExecFns;

verus! {

/// Appends a copy of every character of `src` to `dst`.
pub fn push_all(dst: &mut Vec<char>, src: &Vec<char>)
    ensures
        final(dst)@ == old(dst)@ + src@,
{
    let mut i: usize = 0;
    while i < src.len()
        invariant
            i <= src@.len(),
            dst@ == old(dst)@ + src@.take(i as int),
        decreases src@.len() - i,
    {
        let c = src[i];
        dst.push(c);
        assert(src@.take(i + 1 as int) =~= src@.take(i as int).push(c));
        assert(dst@ =~= old(dst)@ + src@.take(i + 1 as int));
        i = i + 1;
    }
    assert(src@.take(src@.len() as int) =~= src@);
}

/// The characters of `s` as a vector.
pub fn str_chars(s: &str) -> (out: Vec<char>)
    ensures
        out@ == s@,
{
    let n = s.unicode_len();
    let mut out: Vec<char> = Vec::new();
    let mut i: usize = 0;
    while i < n
        invariant
            i <= n,
            n == s@.len(),
            out@ == s@.take(i as int),
        decreases n - i,
    {
        let c = s.get_char(i);
        out.push(c);
        assert(s@.take(i + 1 as int) =~= s@.take(i as int).push(c));
        i = i + 1;
    }
    assert(s@.take(n as int) =~= s@);
    out
}

/// Relies on `String::push`: appends exactly the given character.
#[verifier::external_body]
fn push_char(s: &mut String, c: char)
    ensures
        final(s)@ == old(s)@.push(c),
{
    s.push(c);
}

/// Builds the string holding exactly the characters of `v`.
pub fn chars_to_string(v: &Vec<char>) -> (s: String)
    ensures
        s@ == v@,
{
    let mut s = String::new();
    let mut i: usize = 0;
    while i < v.len()
        invariant
            i <= v@.len(),
            s@ == v@.take(i as int),
        decreases v@.len() - i,
    {
        let c = v[i];
        push_char(&mut s, c);
        assert(v@.take(i + 1 as int) =~= v@.take(i as int).push(c));
        i = i + 1;
    }
    assert(v@.take(v@.len() as int) =~= v@);
    s
}

/// Lexicographic order on character sequences by code point, a prefix
/// ordering below everything it starts.
pub open spec fn lex_le(a: Seq<char>, b: Seq<char>) -> bool
    decreases a.len(),
{
    if a.len() == 0 {
        true
    } else if b.len() == 0 {
        false
    } else if a[0] != b[0] {
        (a[0] as u32) < (b[0] as u32)
    } else {
        lex_le(a.drop_first(), b.drop_first())
    }
}

/// Distinct characters have distinct code points.
proof fn lemma_char_cast_distinct(a: char, b: char)
    ensures
        a != b ==> (a as u32) != (b as u32),
{
}

/// Any two character sequences compare one way or the other.
pub proof fn lemma_lex_total(a: Seq<char>, b: Seq<char>)
    ensures
        lex_le(a, b) || lex_le(b, a),
    decreases a.len(),
{
    if a.len() > 0 && b.len() > 0 {
        if a[0] == b[0] {
            lemma_lex_total(a.drop_first(), b.drop_first());
        } else {
            lemma_char_cast_distinct(a[0], b[0]);
        }
    }
}

/// Compares two strings in the order of `lex_le`.
pub fn str_lex_le(a: &str, b: &str) -> (r: bool)
    ensures
        r == lex_le(a@, b@),
{
    let an = a.unicode_len();
    let bn = b.unicode_len();
    let mut i: usize = 0;
    assert(a@.skip(0) =~= a@);
    assert(b@.skip(0) =~= b@);
    loop
        invariant_except_break
            i <= an,
            i <= bn,
            an == a@.len(),
            bn == b@.len(),
            lex_le(a@, b@) == lex_le(a@.skip(i as int), b@.skip(i as int)),
        ensures
            lex_le(a@, b@) == ({
                if i >= an {
                    true
                } else if i >= bn {
                    false
                } else {
                    (a@[i as int] as u32) < (b@[i as int] as u32)
                }
            }),
        decreases an - i,
    {
        if i >= an {
            assert(lex_le(a@.skip(i as int), b@.skip(i as int)));
            break;
        }
        if i >= bn {
            assert(a@.skip(i as int).len() > 0);
            assert(!lex_le(a@.skip(i as int), b@.skip(i as int)));
            break;
        }
        let ca = a.get_char(i);
        let cb = b.get_char(i);
        assert(a@.skip(i as int)[0] == a@[i as int]);
        assert(b@.skip(i as int)[0] == b@[i as int]);
        if ca != cb {
            break;
        }
        assert(a@.skip(i as int).drop_first() =~= a@.skip(i + 1 as int));
        assert(b@.skip(i as int).drop_first() =~= b@.skip(i + 1 as int));
        i = i + 1;
    }
    if i >= an {
        true
    } else if i >= bn {
        false
    } else {
        let ca = a.get_char(i);
        let cb = b.get_char(i);
        (ca as u32) < (cb as u32)
    }
}

/// True when the two strings hold the same characters.
pub fn str_eq(a: &str, b: &str) -> (r: bool)
    ensures
        r == (a@ == b@),
{
    let an = a.unicode_len();
    let bn = b.unicode_len();
    if an != bn {
        return false;
    }
    let mut i: usize = 0;
    while i < an
        invariant
            i <= an,
            an == a@.len(),
            an == b@.len(),
            forall|j: int| 0 <= j < i ==> a@[j] == b@[j],
        decreases an - i,
    {
        let ca = a.get_char(i);
        let cb = b.get_char(i);
        if ca != cb {
            return false;
        }
        i = i + 1;
    }
    proof {
        assert(a@ =~= b@);
    }
    true
}

/// True when `s` begins with `p`.
pub open spec fn spec_starts_with(s: Seq<char>, p: Seq<char>) -> bool {
    s.len() >= p.len() && s.take(p.len() as int) == p
}

/// True when `s` ends with `p`.
pub open spec fn spec_ends_with(s: Seq<char>, p: Seq<char>) -> bool {
    s.len() >= p.len() && s.skip(s.len() - p.len()) == p
}

/// Tests whether `s` begins with `p`.
pub fn str_starts_with(s: &str, p: &str) -> (r: bool)
    ensures
        r == spec_starts_with(s@, p@),
{
    let sn = s.unicode_len();
    let pn = p.unicode_len();
    if sn < pn {
        return false;
    }
    let mut i: usize = 0;
    while i < pn
        invariant
            i <= pn,
            pn <= sn,
            sn == s@.len(),
            pn == p@.len(),
            forall|j: int| 0 <= j < i ==> s@[j] == #[trigger] p@[j],
        decreases pn - i,
    {
        let cs = s.get_char(i);
        let cp = p.get_char(i);
        if cs != cp {
            assert(s@.take(p@.len() as int)[i as int] != p@[i as int]);
            return false;
        }
        i = i + 1;
    }
    proof {
        assert(s@.take(p@.len() as int) =~= p@);
    }
    true
}

/// Tests whether `s` ends with `p`.
pub fn str_ends_with(s: &str, p: &str) -> (r: bool)
    ensures
        r == spec_ends_with(s@, p@),
{
    let sn = s.unicode_len();
    let pn = p.unicode_len();
    if sn < pn {
        return false;
    }
    let off: usize = sn - pn;
    let mut i: usize = 0;
    while i < pn
        invariant
            i <= pn,
            pn <= sn,
            off == sn - pn,
            sn == s@.len(),
            pn == p@.len(),
            forall|j: int| 0 <= j < i ==> s@[off + j] == #[trigger] p@[j],
        decreases pn - i,
    {
        let cs = s.get_char(off + i);
        let cp = p.get_char(i);
        if cs != cp {
            assert(s@.skip(off as int)[i as int] != p@[i as int]);
            return false;
        }
        i = i + 1;
    }
    proof {
        assert(s@.skip(off as int) =~= p@);
    }
    true
}

/// True for the characters the line protocol escapes in names and keys.
pub open spec fn needs_escape(c: char) -> bool {
    c == ' ' || c == ',' || c == '='
}

/// `s` with every space, comma and equals sign preceded by a backslash.
pub open spec fn spec_escape(s: Seq<char>) -> Seq<char>
    decreases s.len(),
{
    if s.len() == 0 {
        Seq::empty()
    } else {
        (if needs_escape(s[0]) {
            seq!['\\', s[0]]
        } else {
            seq![s[0]]
        }) + spec_escape(s.drop_first())
    }
}

/// Escaping distributes over concatenation.
pub proof fn lemma_escape_concat(a: Seq<char>, b: Seq<char>)
    ensures
        spec_escape(a + b) == spec_escape(a) + spec_escape(b),
    decreases a.len(),
{
    if a.len() == 0 {
        assert(a + b =~= b);
        assert(spec_escape(a) + spec_escape(b) =~= spec_escape(b));
    } else {
        assert((a + b).drop_first() =~= a.drop_first() + b);
        lemma_escape_concat(a.drop_first(), b);
        assert(spec_escape(a + b) =~= spec_escape(a) + spec_escape(b));
    }
}

/// Escapes `s` as a measurement name, tag key, tag value or field key.
pub fn escape_chars(s: &str) -> (out: Vec<char>)
    ensures
        out@ == spec_escape(s@),
{
    let n = s.unicode_len();
    let mut out: Vec<char> = Vec::new();
    let mut i: usize = 0;
    while i < n
        invariant
            i <= n,
            n == s@.len(),
            out@ == spec_escape(s@.take(i as int)),
        decreases n - i,
    {
        let c = s.get_char(i);
        if c == ' ' || c == ',' || c == '=' {
            out.push('\\');
            out.push(c);
        } else {
            out.push(c);
        }
        proof {
            let cc = s@[i as int];
            lemma_escape_concat(s@.take(i as int), seq![cc]);
            assert(s@.take(i + 1 as int) =~= s@.take(i as int) + seq![cc]);
            assert(seq![cc].drop_first() =~= Seq::<char>::empty());
            assert(spec_escape(Seq::<char>::empty()) =~= Seq::<char>::empty());
            assert(spec_escape(seq![cc]) =~= (if needs_escape(cc) {
                seq!['\\', cc]
            } else {
                seq![cc]
            }));
            assert(out@ =~= spec_escape(s@.take(i + 1 as int)));
        }
        i = i + 1;
    }
    assert(s@.take(n as int) =~= s@);
    out
}

/// `s` with every double quote preceded by a backslash.
pub open spec fn spec_escape_quotes(s: Seq<char>) -> Seq<char>
    decreases s.len(),
{
    if s.len() == 0 {
        Seq::empty()
    } else {
        (if s[0] == '"' {
            seq!['\\', '"']
        } else {
            seq![s[0]]
        }) + spec_escape_quotes(s.drop_first())
    }
}

/// Quote escaping distributes over concatenation.
pub proof fn lemma_escape_quotes_concat(a: Seq<char>, b: Seq<char>)
    ensures
        spec_escape_quotes(a + b) == spec_escape_quotes(a) + spec_escape_quotes(b),
    decreases a.len(),
{
    if a.len() == 0 {
        assert(a + b =~= b);
        assert(spec_escape_quotes(a) + spec_escape_quotes(b) =~= spec_escape_quotes(b));
    } else {
        assert((a + b).drop_first() =~= a.drop_first() + b);
        lemma_escape_quotes_concat(a.drop_first(), b);
        assert(spec_escape_quotes(a + b) =~= spec_escape_quotes(a) + spec_escape_quotes(b));
    }
}

/// Escapes `s` as a string field value.
pub fn escape_quotes_chars(s: &str) -> (out: Vec<char>)
    ensures
        out@ == spec_escape_quotes(s@),
{
    let n = s.unicode_len();
    let mut out: Vec<char> = Vec::new();
    let mut i: usize = 0;
    while i < n
        invariant
            i <= n,
            n == s@.len(),
            out@ == spec_escape_quotes(s@.take(i as int)),
        decreases n - i,
    {
        let c = s.get_char(i);
        if c == '"' {
            out.push('\\');
            out.push('"');
        } else {
            out.push(c);
        }
        proof {
            let cc = s@[i as int];
            lemma_escape_quotes_concat(s@.take(i as int), seq![cc]);
            assert(s@.take(i + 1 as int) =~= s@.take(i as int) + seq![cc]);
            assert(seq![cc].drop_first() =~= Seq::<char>::empty());
            assert(spec_escape_quotes(Seq::<char>::empty()) =~= Seq::<char>::empty());
            assert(spec_escape_quotes(seq![cc]) =~= (if cc == '"' {
                seq!['\\', '"']
            } else {
                seq![cc]
            }));
            assert(out@ =~= spec_escape_quotes(s@.take(i + 1 as int)));
        }
        i = i + 1;
    }
    assert(s@.take(n as int) =~= s@);
    out
}

/// Inserts a keyed entry into a key-sorted sequence, after every entry
/// whose key is not above the new key.
pub open spec fn spec_insert_entry<T>(e: (Seq<char>, T), s: Seq<(Seq<char>, T)>) -> Seq<
    (Seq<char>, T),
>
    decreases s.len(),
{
    if s.len() == 0 {
        seq![e]
    } else if lex_le(s[0].0, e.0) {
        seq![s[0]] + spec_insert_entry(e, s.drop_first())
    } else {
        seq![e] + s
    }
}

/// Insertion sort of keyed entries by `lex_le` on the key.
pub open spec fn spec_sort_entries<T>(s: Seq<(Seq<char>, T)>) -> Seq<(Seq<char>, T)>
    decreases s.len(),
{
    if s.len() == 0 {
        Seq::empty()
    } else {
        spec_insert_entry(s[0], spec_sort_entries(s.drop_first()))
    }
}

proof fn lemma_insert_entry_at<T>(e: (Seq<char>, T), s: Seq<(Seq<char>, T)>, k: int)
    requires
        0 <= k <= s.len(),
        forall|j: int| 0 <= j < k ==> lex_le(#[trigger] s[j].0, e.0),
        k < s.len() ==> !lex_le(s[k].0, e.0),
    ensures
        spec_insert_entry(e, s) == s.take(k) + seq![e] + s.skip(k),
    decreases s.len(),
{
    if s.len() == 0 {
        assert(spec_insert_entry(e, s) =~= s.take(0) + seq![e] + s.skip(0));
    } else if k == 0 {
        assert(spec_insert_entry(e, s) =~= s.take(0) + seq![e] + s.skip(0));
    } else {
        lemma_insert_entry_at(e, s.drop_first(), k - 1);
        assert(s.drop_first().take(k - 1) =~= s.take(k).drop_first());
        assert(s.drop_first().skip(k - 1) =~= s.skip(k));
        assert(spec_insert_entry(e, s) =~= s.take(k) + seq![e] + s.skip(k));
    }
}

/// Sorts keyed entries by key, in the order of `spec_sort_entries`.
pub fn sort_entries<T: DeepView>(v: Vec<(String, T)>) -> (out: Vec<(String, T)>)
    ensures
        out.deep_view() == spec_sort_entries(v.deep_view()),
{
    let ghost orig = v.deep_view();
    let mut rest = v;
    let mut out: Vec<(String, T)> = Vec::new();
    assert(orig.skip(orig.len() as int) =~= Seq::<(Seq<char>, T::V)>::empty());
    assert(orig.take(orig.len() as int) =~= orig);
    assert(out.deep_view() =~= Seq::<(Seq<char>, T::V)>::empty());
    while rest.len() > 0
        invariant
            rest@.len() <= orig.len(),
            out.deep_view() == spec_sort_entries(orig.skip(rest@.len() as int)),
            rest.deep_view() == orig.take(rest@.len() as int),
        decreases rest@.len(),
    {
        let ghost rest_pre = rest.deep_view();
        let e = rest.pop().unwrap();
        proof {
            assert(rest.deep_view() =~= rest_pre.take(rest_pre.len() - 1));
            assert(rest.deep_view() =~= orig.take(rest@.len() as int));
        }
        let ghost sorted_pre = out.deep_view();
        let ghost ev = (e.0@, e.1.deep_view());
        proof {
            assert(ev.0 == e.0@);
            assert(rest_pre[rest_pre.len() - 1] == ev);
        }
        // scan for the first entry whose key is above the new key
        let mut k: usize = 0;
        while k < out.len()
            invariant_except_break
                k <= out@.len(),
                ev == (e.0@, e.1.deep_view()),
                forall|j: int| 0 <= j < k ==> lex_le(#[trigger] out.deep_view()[j].0, ev.0),
                out.deep_view() == sorted_pre,
            ensures
                k <= out@.len(),
                forall|j: int| 0 <= j < k ==> lex_le(#[trigger] out.deep_view()[j].0, ev.0),
                k < out@.len() ==> !lex_le(out.deep_view()[k as int].0, ev.0),
                out.deep_view() == sorted_pre,
            decreases out@.len() - k,
        {
            let le = str_lex_le(out[k].0.as_str(), e.0.as_str());
            assert(le == lex_le(out@[k as int].0@, e.0@));
            assert(out.deep_view()[k as int].0 == out@[k as int].0@);
            assert(ev.0 == e.0@);
            assert(le == lex_le(out.deep_view()[k as int].0, ev.0));
            if !le {
                assert(!lex_le(out.deep_view()[k as int].0, ev.0));
                break;
            }
            assert(lex_le(out.deep_view()[k as int].0, ev.0));
            k = k + 1;
        }
        out.insert(k, e);
        proof {
            assert(out.deep_view() =~= sorted_pre.take(k as int) + seq![ev] + sorted_pre.skip(
                k as int,
            ));
            lemma_insert_entry_at(ev, sorted_pre, k as int);
            let m = rest@.len() as int;
            assert(rest_pre == orig.take(m + 1));
            assert(orig[m] == rest_pre[m]);
            assert(orig.skip(m)[0] == ev);
            assert(orig.skip(m).drop_first() =~= orig.skip(m + 1));
            assert(spec_sort_entries(orig.skip(m)) == spec_insert_entry(
                ev,
                spec_sort_entries(orig.skip(m + 1)),
            ));
            assert(out.deep_view() =~= spec_sort_entries(orig.skip(m)));
        }
    }
    proof {
        assert(orig.skip(0) =~= orig);
    }
    out
}

/// The parts joined by single separators, with nothing trailing.
pub open spec fn spec_join_with(parts: Seq<Seq<char>>, sep: char) -> Seq<char>
    decreases parts.len(),
{
    if parts.len() == 0 {
        Seq::empty()
    } else if parts.len() == 1 {
        parts[0]
    } else {
        parts[0] + seq![sep] + spec_join_with(parts.drop_first(), sep)
    }
}

/// Joining one more part appends one separator and that part.
pub proof fn lemma_join_with_push(parts: Seq<Seq<char>>, x: Seq<char>, sep: char)
    ensures
        spec_join_with(parts.push(x), sep) == if parts.len() == 0 {
            x
        } else {
            spec_join_with(parts, sep) + seq![sep] + x
        },
    decreases parts.len(),
{
    if parts.len() == 0 {
        assert(parts.push(x).len() == 1);
        assert(parts.push(x)[0] == x);
    } else {
        assert(parts.push(x)[0] == parts[0]);
        assert(parts.push(x).drop_first() =~= parts.drop_first().push(x));
        lemma_join_with_push(parts.drop_first(), x, sep);
        if parts.len() == 1 {
            assert(parts.drop_first().len() == 0);
            assert(spec_join_with(parts.push(x), sep) =~= spec_join_with(parts, sep) + seq![sep]
                + x);
        } else {
            assert(spec_join_with(parts, sep) == parts[0] + seq![sep] + spec_join_with(
                parts.drop_first(),
                sep,
            ));
            assert(spec_join_with(parts.push(x), sep) =~= spec_join_with(parts, sep) + seq![sep]
                + x);
        }
    }
}


/// The association list after `k` is bound to `v`: an existing binding
/// is replaced in place, a new one appended.
pub open spec fn spec_assoc_set<T>(m: Seq<(Seq<char>, T)>, k: Seq<char>, v: T) -> Seq<
    (Seq<char>, T),
>
    decreases m.len(),
{
    if m.len() == 0 {
        seq![(k, v)]
    } else if m[0].0 == k {
        seq![(k, v)] + m.drop_first()
    } else {
        seq![m[0]] + spec_assoc_set(m.drop_first(), k, v)
    }
}

proof fn lemma_assoc_set_at<T>(m: Seq<(Seq<char>, T)>, k: Seq<char>, v: T, i: int)
    requires
        0 <= i < m.len(),
        m[i].0 == k,
        forall|j: int| 0 <= j < i ==> (#[trigger] m[j]).0 != k,
    ensures
        spec_assoc_set(m, k, v) == m.take(i) + seq![(k, v)] + m.skip(i + 1),
    decreases m.len(),
{
    if i == 0 {
        assert(spec_assoc_set(m, k, v) =~= m.take(0) + seq![(k, v)] + m.skip(1));
    } else {
        lemma_assoc_set_at(m.drop_first(), k, v, i - 1);
        assert(m.drop_first().take(i - 1) =~= m.take(i).drop_first());
        assert(m.drop_first().skip(i) =~= m.skip(i + 1));
        assert(spec_assoc_set(m, k, v) =~= m.take(i) + seq![(k, v)] + m.skip(i + 1));
    }
}

proof fn lemma_assoc_set_missing<T>(m: Seq<(Seq<char>, T)>, k: Seq<char>, v: T)
    requires
        forall|j: int| 0 <= j < m.len() ==> (#[trigger] m[j]).0 != k,
    ensures
        spec_assoc_set(m, k, v) == m.push((k, v)),
    decreases m.len(),
{
    if m.len() == 0 {
        assert(spec_assoc_set(m, k, v) =~= m.push((k, v)));
    } else {
        lemma_assoc_set_missing(m.drop_first(), k, v);
        assert(spec_assoc_set(m, k, v) =~= m.push((k, v)));
    }
}

/// Binds `k` to `v` in the association list, replacing in place or
/// appending.
pub fn assoc_set<T: DeepView>(m: &mut Vec<(String, T)>, k: String, v: T)
    ensures
        final(m).deep_view() == spec_assoc_set(old(m).deep_view(), k@, v.deep_view()),
{
    let ghost m0 = m.deep_view();
    let n = m.len();
    let mut i: usize = 0;
    let mut found: bool = false;
    while i < n
        invariant_except_break
            i <= n,
            !found,
            n == m@.len(),
            m.deep_view() == m0,
            forall|j: int| 0 <= j < i ==> (#[trigger] m0[j]).0 != k@,
        ensures
            m.deep_view() == m0,
            n == m@.len(),
            forall|j: int| 0 <= j < i ==> (#[trigger] m0[j]).0 != k@,
            found ==> i < n && m0[i as int].0 == k@,
            !found ==> i >= n,
        decreases n - i,
    {
        proof {
            assert(m0[i as int] == (m@[i as int].0@, m@[i as int].1.deep_view()));
        }
        if str_eq(m[i].0.as_str(), k.as_str()) {
            found = true;
            break;
        }
        i = i + 1;
    }
    let ghost kk = k@;
    let ghost vv = v.deep_view();
    if found {
        let _prev = m.remove(i);
        m.insert(i, (k, v));
        proof {
            lemma_assoc_set_at(m0, kk, vv, i as int);
            assert(m.deep_view() =~~= m0.take(i as int) + seq![(kk, vv)] + m0.skip(i + 1));
        }
    } else {
        m.push((k, v));
        proof {
            lemma_assoc_set_missing(m0, kk, vv);
            assert(m.deep_view() =~~= m0.push((kk, vv)));
        }
    }
}


/// Whether the association list binds `k`.
pub open spec fn spec_assoc_has<T>(m: Seq<(Seq<char>, T)>, k: Seq<char>) -> bool
    decreases m.len(),
{
    if m.len() == 0 {
        false
    } else if m[0].0 == k {
        true
    } else {
        spec_assoc_has(m.drop_first(), k)
    }
}

/// Tests whether the association list binds `k`.
pub fn assoc_has<T: DeepView>(m: &Vec<(String, T)>, k: &str) -> (r: bool)
    ensures
        r == spec_assoc_has(m.deep_view(), k@),
{
    let n = m.len();
    let mut i: usize = 0;
    proof {
        assert(m.deep_view().skip(0) =~= m.deep_view());
    }
    while i < n
        invariant_except_break
            i <= n,
            n == m@.len(),
            spec_assoc_has(m.deep_view(), k@) == spec_assoc_has(
                m.deep_view().skip(i as int),
                k@,
            ),
        ensures
            spec_assoc_has(m.deep_view(), k@) == (i < n),
        decreases n - i,
    {
        proof {
            assert(m.deep_view().skip(i as int)[0] == m.deep_view()[i as int]);
            assert(m.deep_view()[i as int] == (m@[i as int].0@, m@[i as int].1.deep_view()));
        }
        if str_eq(m[i].0.as_str(), k) {
            break;
        }
        proof {
            assert(m.deep_view().skip(i as int).drop_first() =~= m.deep_view().skip(i + 1 as int));
        }
        i = i + 1;
    }
    i < n
}

/// Inserts a line into a sorted sequence of lines, after every line
/// not above it.
pub open spec fn spec_insert_line(x: Seq<char>, s: Seq<Seq<char>>) -> Seq<Seq<char>>
    decreases s.len(),
{
    if s.len() == 0 {
        seq![x]
    } else if lex_le(s[0], x) {
        seq![s[0]] + spec_insert_line(x, s.drop_first())
    } else {
        seq![x] + s
    }
}

/// Insertion sort of lines into the order of `lex_le`.
pub open spec fn spec_sort_lines(s: Seq<Seq<char>>) -> Seq<Seq<char>>
    decreases s.len(),
{
    if s.len() == 0 {
        Seq::empty()
    } else {
        spec_insert_line(s[0], spec_sort_lines(s.drop_first()))
    }
}

proof fn lemma_insert_line_at(x: Seq<char>, s: Seq<Seq<char>>, k: int)
    requires
        0 <= k <= s.len(),
        forall|j: int| 0 <= j < k ==> lex_le(#[trigger] s[j], x),
        k < s.len() ==> !lex_le(s[k], x),
    ensures
        spec_insert_line(x, s) == s.take(k) + seq![x] + s.skip(k),
    decreases s.len(),
{
    if s.len() == 0 || k == 0 {
        assert(spec_insert_line(x, s) =~= s.take(0) + seq![x] + s.skip(0));
    } else {
        lemma_insert_line_at(x, s.drop_first(), k - 1);
        assert(s.drop_first().take(k - 1) =~= s.take(k).drop_first());
        assert(s.drop_first().skip(k - 1) =~= s.skip(k));
        assert(spec_insert_line(x, s) =~= s.take(k) + seq![x] + s.skip(k));
    }
}

/// Sorts lines into the order of `spec_sort_lines`.
pub fn sort_lines(v: Vec<String>) -> (out: Vec<String>)
    ensures
        out.deep_view() == spec_sort_lines(v.deep_view()),
{
    let ghost orig = v.deep_view();
    let mut rest = v;
    let mut out: Vec<String> = Vec::new();
    assert(orig.skip(orig.len() as int) =~= Seq::<Seq<char>>::empty());
    assert(orig.take(orig.len() as int) =~= orig);
    assert(out.deep_view() =~= Seq::<Seq<char>>::empty());
    while rest.len() > 0
        invariant
            rest@.len() <= orig.len(),
            out.deep_view() == spec_sort_lines(orig.skip(rest@.len() as int)),
            rest.deep_view() == orig.take(rest@.len() as int),
        decreases rest@.len(),
    {
        let ghost rest_pre = rest.deep_view();
        let e = rest.pop().unwrap();
        proof {
            assert(rest.deep_view() =~= rest_pre.take(rest_pre.len() - 1));
            assert(rest.deep_view() =~= orig.take(rest@.len() as int));
        }
        let ghost sorted_pre = out.deep_view();
        let ghost ev = e@;
        proof {
            assert(rest_pre[rest_pre.len() - 1] == ev);
        }
        let mut k: usize = 0;
        while k < out.len()
            invariant_except_break
                k <= out@.len(),
                ev == e@,
                forall|j: int| 0 <= j < k ==> lex_le(#[trigger] out.deep_view()[j], ev),
                out.deep_view() == sorted_pre,
            ensures
                k <= out@.len(),
                forall|j: int| 0 <= j < k ==> lex_le(#[trigger] out.deep_view()[j], ev),
                k < out@.len() ==> !lex_le(out.deep_view()[k as int], ev),
                out.deep_view() == sorted_pre,
            decreases out@.len() - k,
        {
            let le = str_lex_le(out[k].as_str(), e.as_str());
            assert(out.deep_view()[k as int] == out@[k as int]@);
            if !le {
                break;
            }
            k = k + 1;
        }
        out.insert(k, e);
        proof {
            assert(out.deep_view() =~= sorted_pre.take(k as int) + seq![ev] + sorted_pre.skip(
                k as int,
            ));
            lemma_insert_line_at(ev, sorted_pre, k as int);
            let m = rest@.len() as int;
            assert(orig.skip(m)[0] == ev);
            assert(orig.skip(m).drop_first() =~= orig.skip(m + 1));
            assert(out.deep_view() =~= spec_sort_lines(orig.skip(m)));
        }
    }
    proof {
        assert(orig.skip(0) =~= orig);
    }
    out
}

/// The characters of `s` from `from` on, as a fresh string.
pub fn str_suffix_from(s: &str, from: usize) -> (out: String)
    requires
        from <= s@.len(),
    ensures
        out@ == s@.skip(from as int),
{
    let n = s.unicode_len();
    let mut chars: Vec<char> = Vec::new();
    let mut i: usize = from;
    assert(s@.skip(from as int).take(0) =~= Seq::<char>::empty());
    while i < n
        invariant
            from <= i <= n,
            n == s@.len(),
            chars@ == s@.skip(from as int).take(i - from),
        decreases n - i,
    {
        let c = s.get_char(i);
        chars.push(c);
        proof {
            assert(s@.skip(from as int)[i - from] == s@[i as int]);
            assert(s@.skip(from as int).take(i + 1 - from) =~= s@.skip(from as int).take(
                i - from,
            ).push(s@[i as int]));
        }
        i = i + 1;
    }
    proof {
        assert(s@.skip(from as int).take(n - from) =~= s@.skip(from as int));
    }
    chars_to_string(&chars)
}


/// Joins the lines with single newlines, with no trailing newline.
pub fn join_lines(v: &Vec<String>) -> (out: String)
    ensures
        out@ == spec_join_with(v.deep_view(), '\n'),
{
    let mut out = String::new();
    let ghost dv = v.deep_view();
    let n = v.len();
    let mut i: usize = 0;
    proof {
        assert(spec_join_with(dv.take(0), '\n') =~= Seq::<char>::empty());
    }
    while i < n
        invariant
            i <= n,
            n == v@.len(),
            dv == v.deep_view(),
            out@ == spec_join_with(dv.take(i as int), '\n'),
        decreases n - i,
    {
        if i > 0 {
            push_newline(&mut out);
        }
        out.append(v[i].as_str());
        proof {
            assert(dv[i as int] == v@[i as int]@);
            lemma_join_with_push(dv.take(i as int), dv[i as int], '\n');
            assert(dv.take(i + 1 as int) =~= dv.take(i as int).push(dv[i as int]));
            assert(out@ =~= spec_join_with(dv.take(i + 1 as int), '\n'));
        }
        i = i + 1;
    }
    proof {
        assert(dv.take(n as int) =~= dv);
    }
    out
}

/// Appends a newline character.
fn push_newline(s: &mut String)
    ensures
        final(s)@ == old(s)@.push('\n'),
{
    push_char(s, '\n');
}

} // verus!
