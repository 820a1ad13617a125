use vstd::prelude::*;

verus! {

/// Appends `c` to `s` (`String::push`).
///
/// Trusted: the claim is that `String::push` leaves the old characters in
/// place and adds `c` at the end, as its documentation says.
#[verifier::external_body]
pub(crate) fn push_char(s: &mut String, c: char)
    ensures
        final(s)@ == old(s)@.push(c),
{
    s.push(c);
}

/// The characters of `s`, in order.
pub fn chars_of(s: &str) -> (out: Vec<char>)
    ensures
        out@ == s@,
{
    let mut out: Vec<char> = Vec::new();
    for c in it: s.chars()
        invariant
            out@ == it.seq().take(it.index() as int),
    {
        out.push(c);
    }
    out
}


/// The string made of the characters of `cs` from index `from` on.
pub fn string_of_chars(cs: &[char], from: usize) -> (s: String)
    requires
        from <= cs@.len(),
    ensures
        s@ == cs@.skip(from as int),
{
    let mut s = String::new();
    let mut i: usize = from;
    while i < cs.len()
        invariant
            from <= i <= cs@.len(),
            s@ == cs@.subrange(from as int, i as int),
        decreases cs@.len() - i,
    {
        push_char(&mut s, cs[i]);
        assert(cs@.subrange(from as int, i + 1) =~= cs@.subrange(from as int, i as int).push(cs@[i as int]));
        i = i + 1;
    }
    assert(cs@.subrange(from as int, i as int) =~= cs@.skip(from as int));
    s
}

/// `c` is an ASCII letter or digit (`char::is_ascii_alphanumeric`).
pub open spec fn is_ascii_alphanumeric(c: char) -> bool {
    ('a' <= c && c <= 'z') || ('A' <= c && c <= 'Z') || ('0' <= c && c <= '9')
}

/// Executable form of [`is_ascii_alphanumeric`].
pub fn ascii_alphanumeric(c: char) -> (b: bool)
    ensures
        b == is_ascii_alphanumeric(c),
{
    ('a' <= c && c <= 'z') || ('A' <= c && c <= 'Z') || ('0' <= c && c <= '9')
}


/// The views of a sequence of strings.
pub open spec fn views(v: Seq<String>) -> Seq<Seq<char>> {
    v.map_values(|s: String| s@)
}

/// Whether two string lists hold the same texts in the same order.
pub fn same_strings(a: &Vec<String>, b: &Vec<String>) -> (same: bool)
    ensures
        same == (views(a@) == views(b@)),
{
    if a.len() != b.len() {
        assert(views(a@).len() != views(b@).len());
        return false;
    }
    let mut i: usize = 0;
    while i < a.len()
        invariant
            a@.len() == b@.len(),
            i <= a@.len(),
            forall|j: int| 0 <= j < i ==> a@[j]@ == b@[j]@,
        decreases a@.len() - i,
    {
        if a[i] != b[i] {
            assert(views(a@)[i as int] != views(b@)[i as int]);
            return false;
        }
        i = i + 1;
    }
    assert(views(a@) =~= views(b@));
    true
}


/// `a` sorts strictly before `b` in the order of `str`'s `Ord`: compared
/// character by character, a proper prefix first. (UTF-8 keeps code point
/// order, so this is the byte order that `str` uses.)
pub open spec fn text_lt(a: Seq<char>, b: Seq<char>) -> bool
    decreases a.len(),
{
    if b.len() == 0 {
        false
    } else if a.len() == 0 {
        true
    } else if a[0] == b[0] {
        text_lt(a.drop_first(), b.drop_first())
    } else {
        a[0] < b[0]
    }
}

/// No string sorts before itself, and of two strings at most one sorts first.
pub proof fn lemma_text_lt_asymmetric(a: Seq<char>, b: Seq<char>)
    ensures
        !(text_lt(a, b) && text_lt(b, a)),
    decreases a.len(),
{
    if a.len() > 0 && b.len() > 0 && a[0] == b[0] {
        lemma_text_lt_asymmetric(a.drop_first(), b.drop_first());
    }
}

/// The order is transitive.
pub proof fn lemma_text_lt_transitive(a: Seq<char>, b: Seq<char>, c: Seq<char>)
    requires
        text_lt(a, b),
        text_lt(b, c),
    ensures
        text_lt(a, c),
    decreases a.len(),
{
    if a.len() > 0 && b.len() > 0 && c.len() > 0 && a[0] == b[0] && b[0] == c[0] {
        lemma_text_lt_transitive(a.drop_first(), b.drop_first(), c.drop_first());
    }
}

/// Of two different strings one sorts before the other.
pub proof fn lemma_text_lt_total(a: Seq<char>, b: Seq<char>)
    ensures
        a == b || text_lt(a, b) || text_lt(b, a),
    decreases a.len(),
{
    if a.len() > 0 && b.len() > 0 && a[0] == b[0] {
        lemma_text_lt_total(a.drop_first(), b.drop_first());
        if a.drop_first() == b.drop_first() {
            assert(a =~= seq![a[0]] + a.drop_first());
            assert(b =~= seq![b[0]] + b.drop_first());
        }
    } else if a.len() == 0 && b.len() == 0 {
        assert(a =~= b);
    }
}

/// Whether `a` sorts strictly before `b`.
pub fn text_less(a: &str, b: &str) -> (lt: bool)
    ensures
        lt == text_lt(a@, b@),
{
    let ac = chars_of(a);
    let bc = chars_of(b);
    let mut k: usize = 0;
    assert(a@.skip(0) =~= a@);
    assert(b@.skip(0) =~= b@);
    while k < ac.len() && k < bc.len() && ac[k] == bc[k]
        invariant
            ac@ == a@,
            bc@ == b@,
            k <= ac@.len(),
            k <= bc@.len(),
            text_lt(a@, b@) == text_lt(a@.skip(k as int), b@.skip(k as int)),
        decreases ac@.len() - k,
    {
        assert(a@.skip(k as int).drop_first() =~= a@.skip(k + 1));
        assert(b@.skip(k as int).drop_first() =~= b@.skip(k + 1));
        k = k + 1;
    }
    if k < bc.len() && k < ac.len() {
        ac[k] < bc[k]
    } else {
        k < bc.len()
    }
}

/// `s` with later repeats removed: each text is kept where it first occurs.
pub open spec fn dedup_spec(s: Seq<Seq<char>>) -> Seq<Seq<char>>
    decreases s.len(),
{
    if s.len() == 0 {
        s
    } else {
        let kept = dedup_spec(s.drop_last());
        if kept.contains(s.last()) {
            kept
        } else {
            kept.push(s.last())
        }
    }
}

/// Removing repeats keeps exactly the texts that occur, each once.
pub proof fn lemma_dedup(s: Seq<Seq<char>>)
    ensures
        forall|x: Seq<char>| dedup_spec(s).contains(x) <==> s.contains(x),
        forall|i: int, j: int|
            0 <= i < j < dedup_spec(s).len() ==> dedup_spec(s)[i] != dedup_spec(s)[j],
    decreases s.len(),
{
    if s.len() > 0 {
        lemma_dedup(s.drop_last());
        let kept = dedup_spec(s.drop_last());
        assert forall|x: Seq<char>| dedup_spec(s).contains(x) <==> s.contains(x) by {
            assert(s.contains(x) <==> (s.drop_last().contains(x) || x == s.last())) by {
                if s.contains(x) {
                    let k = choose|k: int| 0 <= k < s.len() && s[k] == x;
                    if k < s.len() - 1 {
                        assert(s.drop_last()[k] == x);
                    }
                }
                if s.drop_last().contains(x) {
                    let k = choose|k: int| 0 <= k < s.drop_last().len() && s.drop_last()[k] == x;
                    assert(s[k] == x);
                }
                if x == s.last() {
                    assert(s[s.len() - 1] == x);
                }
            }
            if !kept.contains(s.last()) {
                assert(kept.push(s.last()).contains(x) <==> (kept.contains(x) || x == s.last())) by {
                    if kept.push(s.last()).contains(x) {
                        let k = choose|k: int| 0 <= k < kept.push(s.last()).len() && kept.push(s.last())[k] == x;
                        if k < kept.len() {
                            assert(kept[k] == x);
                        }
                    }
                    if kept.contains(x) {
                        let k = choose|k: int| 0 <= k < kept.len() && kept[k] == x;
                        assert(kept.push(s.last())[k] == x);
                    }
                    if x == s.last() {
                        assert(kept.push(s.last())[kept.len() as int] == x);
                    }
                }
            }
        }
    }
}

/// `x` occurs in `s` before any occurrence of `y`.
pub open spec fn occurs_before(s: Seq<Seq<char>>, x: Seq<char>, y: Seq<char>) -> bool {
    exists|a: int| 0 <= a < s.len() && #[trigger] s[a] == x && forall|m: int| 0 <= m <= a ==> #[trigger] s[m] != y
}

proof fn lemma_occurs_before_extends(s: Seq<Seq<char>>, x: Seq<char>, y: Seq<char>)
    requires
        s.len() > 0,
        occurs_before(s.drop_last(), x, y),
    ensures
        occurs_before(s, x, y),
{
    let t = s.drop_last();
    let a = choose|a: int| 0 <= a < t.len() && #[trigger] t[a] == x && forall|m: int| 0 <= m <= a ==> #[trigger] t[m] != y;
    assert(s[a] == x);
    assert forall|m: int| 0 <= m <= a implies #[trigger] s[m] != y by {
        assert(s[m] == t[m]);
    }
}

/// Dropping repeats keeps the first occurrences in their original order: of
/// any two texts kept, the earlier one occurs first in the input; and a list
/// without repeats comes back unchanged.
pub proof fn law_dedup_keeps_first_occurrences(s: Seq<Seq<char>>)
    ensures
        forall|i: int, j: int|
            0 <= i < j < dedup_spec(s).len() ==> occurs_before(s, #[trigger] dedup_spec(s)[i], #[trigger] dedup_spec(s)[j]),
        (forall|i: int, j: int| 0 <= i < j < s.len() ==> s[i] != s[j]) ==> dedup_spec(s) == s,
    decreases s.len(),
{
    if s.len() > 0 {
        let t = s.drop_last();
        law_dedup_keeps_first_occurrences(t);
        lemma_dedup(t);
        lemma_dedup(s);
        let kept = dedup_spec(t);
        let r = dedup_spec(s);
        assert forall|i: int, j: int| 0 <= i < j < r.len() implies occurs_before(s, #[trigger] r[i], #[trigger] r[j]) by {
            if j < kept.len() {
                assert(r[i] == kept[i] && r[j] == kept[j]);
                lemma_occurs_before_extends(s, kept[i], kept[j]);
            } else {
                assert(!kept.contains(s.last()));
                assert(r[j] == s.last());
                assert(r[i] == kept[i]);
                assert(kept.contains(kept[i]));
                assert(t.contains(kept[i]));
                let a = choose|a: int| 0 <= a < t.len() && t[a] == kept[i];
                assert(!t.contains(s.last()));
                assert forall|m: int| 0 <= m <= a implies #[trigger] s[m] != r[j] by {
                    assert(s[m] == t[m]);
                    if s[m] == r[j] {
                        assert(t.contains(s.last()));
                    }
                }
                assert(s[a] == r[i]);
            }
        }
        if forall|i: int, j: int| 0 <= i < j < s.len() ==> s[i] != s[j] {
            assert forall|i: int, j: int| 0 <= i < j < t.len() implies t[i] != t[j] by {
                assert(t[i] == s[i] && t[j] == s[j]);
            }
            assert(kept == t);
            if t.contains(s.last()) {
                let k = choose|k: int| 0 <= k < t.len() && t[k] == s.last();
                assert(s[k] == s[s.len() - 1]);
            }
            assert(t.push(s.last()) =~= s);
        }
    }
}

/// Whether `v` holds the text `s`.
pub fn contains_text(v: &Vec<String>, s: &String) -> (found: bool)
    ensures
        found == views(v@).contains(s@),
{
    let mut i: usize = 0;
    while i < v.len()
        invariant
            i <= v@.len(),
            forall|j: int| 0 <= j < i ==> v@[j]@ != s@,
        decreases v@.len() - i,
    {
        if v[i] == *s {
            assert(views(v@)[i as int] == s@);
            return true;
        }
        i = i + 1;
    }
    assert(!views(v@).contains(s@)) by {
        if views(v@).contains(s@) {
            let k = choose|k: int| 0 <= k < views(v@).len() && views(v@)[k] == s@;
            assert(v@[k]@ == s@);
        }
    }
    false
}

/// Appends to `out` each text of `items` that `out` does not hold yet.
pub fn push_new_texts(out: &mut Vec<String>, items: &Vec<String>)
    requires
        views(old(out)@) == dedup_spec(views(old(out)@)),
    ensures
        views(final(out)@) == dedup_spec(views(old(out)@) + views(items@)),
{
    let ghost start = views(out@);
    let mut i: usize = 0;
    while i < items.len()
        invariant
            i <= items@.len(),
            views(out@) == dedup_spec(start + views(items@).take(i as int)),
        decreases items@.len() - i,
    {
        proof {
            assert((start + views(items@).take(i + 1)).drop_last() =~= start + views(items@).take(i as int));
            assert((start + views(items@).take(i + 1)).last() == items@[i as int]@);
        }
        if !contains_text(out, &items[i]) {
            let ghost before = out@;
            out.push(items[i].clone());
            assert(views(out@) =~= views(before).push(items@[i as int]@));
        }
        i = i + 1;
    }
    assert(views(items@).take(i as int) =~= views(items@));
}

/// `items` with later repeats removed (first occurrences kept, in order).
pub fn dedup(items: &Vec<String>) -> (kept: Vec<String>)
    ensures
        views(kept@) == dedup_spec(views(items@)),
{
    let mut kept: Vec<String> = Vec::new();
    assert(views(kept@) =~= Seq::<Seq<char>>::empty());
    assert(views(kept@) =~= dedup_spec(views(kept@)));
    assert(views(kept@) + views(items@) =~= views(items@));
    push_new_texts(&mut kept, items);
    kept
}


/// The texts of `a` followed by those of `b`.
pub fn concat_texts(a: &Vec<String>, b: &Vec<String>) -> (both: Vec<String>)
    ensures
        views(both@) == views(a@) + views(b@),
{
    let mut both: Vec<String> = Vec::new();
    let mut i: usize = 0;
    while i < a.len()
        invariant
            i <= a@.len(),
            views(both@) == views(a@).take(i as int),
        decreases a@.len() - i,
    {
        let ghost before = both@;
        both.push(a[i].clone());
        assert(views(both@) =~= views(before).push(a@[i as int]@));
        assert(views(a@).take(i + 1) =~= views(a@).take(i as int).push(a@[i as int]@));
        i = i + 1;
    }
    let mut j: usize = 0;
    while j < b.len()
        invariant
            i == a@.len(),
            j <= b@.len(),
            views(both@) == views(a@) + views(b@).take(j as int),
        decreases b@.len() - j,
    {
        let ghost before = both@;
        both.push(b[j].clone());
        assert(views(both@) =~= views(before).push(b@[j as int]@));
        assert(views(b@).take(j + 1) =~= views(b@).take(j as int).push(b@[j as int]@));
        j = j + 1;
    }
    assert(views(a@).take(i as int) =~= views(a@));
    assert(views(b@).take(j as int) =~= views(b@));
    both
}


/// `c` has the Unicode `White_Space` property (`char::is_whitespace`).
pub open spec fn is_whitespace(c: char) -> bool {
    ('\u{9}' <= c && c <= '\u{d}') || c == ' ' || c == '\u{85}' || c == '\u{a0}' || c == '\u{1680}'
        || ('\u{2000}' <= c && c <= '\u{200a}') || c == '\u{2028}' || c == '\u{2029}' || c
        == '\u{202f}' || c == '\u{205f}' || c == '\u{3000}'
}

/// Executable form of [`is_whitespace`].
pub fn whitespace(c: char) -> (b: bool)
    ensures
        b == is_whitespace(c),
{
    ('\u{9}' <= c && c <= '\u{d}') || c == ' ' || c == '\u{85}' || c == '\u{a0}' || c == '\u{1680}'
        || ('\u{2000}' <= c && c <= '\u{200a}') || c == '\u{2028}' || c == '\u{2029}' || c
        == '\u{202f}' || c == '\u{205f}' || c == '\u{3000}'
}

/// `s` without its leading whitespace.
pub open spec fn trim_start_spec(s: Seq<char>) -> Seq<char>
    decreases s.len(),
{
    if s.len() > 0 && is_whitespace(s[0]) {
        trim_start_spec(s.drop_first())
    } else {
        s
    }
}

/// `s` without its trailing whitespace.
pub open spec fn trim_end_spec(s: Seq<char>) -> Seq<char>
    decreases s.len(),
{
    if s.len() > 0 && is_whitespace(s.last()) {
        trim_end_spec(s.drop_last())
    } else {
        s
    }
}

/// `s` without leading and trailing whitespace (`str::trim`).
pub open spec fn trim_spec(s: Seq<char>) -> Seq<char> {
    trim_end_spec(trim_start_spec(s))
}

/// `s` without leading and trailing whitespace.
pub fn trim(s: &str) -> (t: String)
    ensures
        t@ == trim_spec(s@),
{
    let chars = chars_of(s);
    let n = chars.len();
    let mut start: usize = 0;
    assert(s@.subrange(0, n as int) =~= s@);
    while start < n && whitespace(chars[start])
        invariant
            start <= n,
            n == chars@.len(),
            chars@ == s@,
            trim_start_spec(s@) == trim_start_spec(s@.subrange(start as int, n as int)),
        decreases n - start,
    {
        assert(s@.subrange(start as int, n as int).drop_first() =~= s@.subrange(start + 1, n as int));
        start = start + 1;
    }
    let mut end: usize = n;
    assert(s@.subrange(start as int, n as int) =~= trim_start_spec(s@));
    while end > start && whitespace(chars[end - 1])
        invariant
            start <= end <= n,
            n == chars@.len(),
            chars@ == s@,
            trim_spec(s@) == trim_end_spec(s@.subrange(start as int, end as int)),
        decreases end - start,
    {
        assert(s@.subrange(start as int, end as int).drop_last() =~= s@.subrange(start as int, end - 1));
        end = end - 1;
    }
    let mut t = String::new();
    let mut i: usize = start;
    while i < end
        invariant
            start <= i <= end <= n,
            n == chars@.len(),
            chars@ == s@,
            t@ == s@.subrange(start as int, i as int),
        decreases end - i,
    {
        push_char(&mut t, chars[i]);
        assert(s@.subrange(start as int, i + 1) =~= s@.subrange(start as int, i as int).push(s@[i as int]));
        i = i + 1;
    }
    t
}

} // verus!
