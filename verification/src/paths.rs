use vstd::prelude::*;

use crate::text::{chars_of, push_char, same_strings, string_of_chars, views};

verus! {

/// `base` joined with `rel` as `Path::join` does on Unix: an absolute `rel`
/// replaces `base`; otherwise a `/` goes between them unless `base` is empty
/// or already ends in one.
pub open spec fn join_spec(base: Seq<char>, rel: Seq<char>) -> Seq<char> {
    if rel.len() > 0 && rel[0] == '/' {
        rel
    } else if base.len() == 0 || base.last() == '/' {
        base + rel
    } else {
        base + seq!['/'] + rel
    }
}

/// `base.join(rel)` as a string.
pub fn join(base: &str, rel: &str) -> (joined: String)
    ensures
        joined@ == join_spec(base@, rel@),
{
    let rel_chars = chars_of(rel);
    let base_chars = chars_of(base);
    if rel_chars.len() > 0 && rel_chars[0] == '/' {
        return rel.to_owned();
    }
    let mut joined = base.to_owned();
    if base_chars.len() > 0 && base_chars[base_chars.len() - 1] != '/' {
        push_char(&mut joined, '/');
    }
    joined.append(rel);
    joined
}


/// `s` cut at every `/`: the pieces between separators, empty ones included
/// (`"a//b/"` gives `a`, ``, `b`, ``).
pub open spec fn split_slash(s: Seq<char>) -> Seq<Seq<char>>
    decreases s.len(),
{
    if s.len() == 0 {
        seq![Seq::<char>::empty()]
    } else {
        let init = split_slash(s.drop_last());
        if s.last() == '/' {
            init.push(Seq::<char>::empty())
        } else {
            init.update(init.len() - 1, init.last().push(s.last()))
        }
    }
}

/// A piece of a path that names something: neither empty (repeated or
/// trailing separators) nor `.`.
pub open spec fn is_named_segment(seg: Seq<char>) -> bool {
    seg.len() > 0 && seg != seq!['.']
}

/// The named pieces of `s`, in order (`..` included).
pub open spec fn named_segments(s: Seq<char>) -> Seq<Seq<char>> {
    split_slash(s).filter(|seg: Seq<char>| is_named_segment(seg))
}

/// `s` starts at the root directory.
pub open spec fn has_root(s: Seq<char>) -> bool {
    s.len() > 0 && s[0] == '/'
}

/// `s` is relative and starts with the current directory (`.` or `./…`).
pub open spec fn starts_at_cur_dir(s: Seq<char>) -> bool {
    !has_root(s) && s.len() > 0 && s[0] == '.' && (s.len() == 1 || s[1] == '/')
}

/// Two paths are equal as `Path == Path` decides on Unix: they have the same
/// components, so repeated separators, a trailing separator and `.` pieces
/// after the start do not count.
pub open spec fn same_path(a: Seq<char>, b: Seq<char>) -> bool {
    &&& has_root(a) == has_root(b)
    &&& starts_at_cur_dir(a) == starts_at_cur_dir(b)
    &&& named_segments(a) == named_segments(b)
}

proof fn lemma_split_slash_push(s: Seq<char>, c: char)
    ensures
        split_slash(s.push(c)) == (if c == '/' {
            split_slash(s).push(Seq::<char>::empty())
        } else {
            split_slash(s).update(split_slash(s).len() - 1, split_slash(s).last().push(c))
        }),
{
    assert(s.push(c).drop_last() =~= s);
}

proof fn lemma_filter_named_push(done: Seq<Seq<char>>, seg: Seq<char>)
    ensures
        done.push(seg).filter(|x: Seq<char>| is_named_segment(x)) == (if is_named_segment(seg) {
            done.filter(|x: Seq<char>| is_named_segment(x)).push(seg)
        } else {
            done.filter(|x: Seq<char>| is_named_segment(x))
        }),
{
    reveal(Seq::filter);
    assert(done.push(seg).drop_last() =~= done);
}

/// Whether the pending piece `cur` names something.
fn is_named(cur: &Vec<char>) -> (named: bool)
    ensures
        named == is_named_segment(cur@),
{
    if cur.len() == 0 {
        false
    } else if cur.len() == 1 && cur[0] == '.' {
        assert(cur@ =~= seq!['.']);
        false
    } else {
        assert(cur@.len() != 1 ==> cur@ != seq!['.']);
        true
    }
}

/// The named pieces of the path `s`.
pub fn path_segments(s: &str) -> (segs: Vec<String>)
    ensures
        views(segs@) == named_segments(s@),
{
    let chars = chars_of(s);
    let mut segs: Vec<String> = Vec::new();
    let mut cur: Vec<char> = Vec::new();
    let ghost mut done: Seq<Seq<char>> = Seq::empty();
    let mut i: usize = 0;
    proof {
        assert(chars@.take(0) =~= Seq::<char>::empty());
        assert(done.push(cur@) =~= split_slash(Seq::<char>::empty()));
    }
    while i < chars.len()
        invariant
            i <= chars@.len(),
            chars@ == s@,
            split_slash(chars@.take(i as int)) == done.push(cur@),
            views(segs@) == done.filter(|x: Seq<char>| is_named_segment(x)),
        decreases chars@.len() - i,
    {
        let c = chars[i];
        proof {
            assert(chars@.take(i + 1) =~= chars@.take(i as int).push(c));
            lemma_split_slash_push(chars@.take(i as int), c);
        }
        if c == '/' {
            proof {
                lemma_filter_named_push(done, cur@);
            }
            if is_named(&cur) {
                let ghost before = segs@;
                let seg = string_of_chars(cur.as_slice(), 0);
                segs.push(seg);
                assert(cur@.skip(0) =~= cur@);
                assert(views(segs@) =~= views(before).push(cur@));
            }
            proof {
                done = done.push(cur@);
            }
            cur = Vec::new();
            assert(done.push(cur@) =~= split_slash(chars@.take(i as int)).push(Seq::<char>::empty()));
        } else {
            cur.push(c);
            assert(done.push(cur@) =~= split_slash(chars@.take(i as int)).update(
                split_slash(chars@.take(i as int)).len() - 1,
                split_slash(chars@.take(i as int)).last().push(c),
            ));
        }
        i = i + 1;
    }
    proof {
        assert(chars@.take(i as int) =~= s@);
        lemma_filter_named_push(done, cur@);
    }
    if is_named(&cur) {
        let ghost before = segs@;
        let seg = string_of_chars(cur.as_slice(), 0);
        segs.push(seg);
        assert(cur@.skip(0) =~= cur@);
        assert(views(segs@) =~= views(before).push(cur@));
    }
    proof {
        assert(views(segs@) =~= named_segments(s@));
    }
    segs
}


/// Whether `a` and `b` name the same path (`Path::new(a) == Path::new(b)`).
pub fn paths_equal(a: &str, b: &str) -> (eq: bool)
    ensures
        eq == same_path(a@, b@),
{
    let ac = chars_of(a);
    let bc = chars_of(b);
    let a_root = ac.len() > 0 && ac[0] == '/';
    let b_root = bc.len() > 0 && bc[0] == '/';
    let a_cur = !a_root && ac.len() > 0 && ac[0] == '.' && (ac.len() == 1 || ac[1] == '/');
    let b_cur = !b_root && bc.len() > 0 && bc[0] == '.' && (bc.len() == 1 || bc[1] == '/');
    if a_root != b_root || a_cur != b_cur {
        return false;
    }
    let a_segs = path_segments(a);
    let b_segs = path_segments(b);
    same_strings(&a_segs, &b_segs)
}

} // verus!
