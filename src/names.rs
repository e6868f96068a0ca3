//! Short names for terminal windows and sessions, derived from paths.

use vstd::prelude::*;

use crate::text::{chars_of, push_char, slice_chars, string_of};

verus! {

/// `s` without its trailing slashes.
pub open spec fn trim_trailing_slashes(s: Seq<char>) -> Seq<char>
    decreases s.len(),
{
    if s.len() > 0 && s.last() == '/' {
        trim_trailing_slashes(s.drop_last())
    } else {
        s
    }
}

/// The position of the last slash of `s`.
pub open spec fn last_slash(s: Seq<char>) -> Option<int>
    decreases s.len(),
{
    if s.len() == 0 {
        None
    } else if s.last() == '/' {
        Some(s.len() - 1)
    } else {
        last_slash(s.drop_last())
    }
}

/// The last component of `s`: what follows its last slash, or all of it.
pub open spec fn last_component(s: Seq<char>) -> Seq<char> {
    match last_slash(s) {
        Some(i) => s.subrange(i + 1, s.len() as int),
        None => s,
    }
}

/// The first four characters of `s` (all of them when it is shorter).
pub open spec fn first_four(s: Seq<char>) -> Seq<char> {
    if s.len() <= 4 {
        s
    } else {
        s.subrange(0, 4)
    }
}

/// A window name for `path`: trailing slashes dropped, then the parent's
/// name cut to four characters, a slash, and the last component; a path
/// without a slash is kept whole.
pub open spec fn window_name(path: Seq<char>) -> Seq<char> {
    let t = trim_trailing_slashes(path);
    match last_slash(t) {
        None => t,
        Some(i) => first_four(last_component(t.subrange(0, i))) + seq!['/'] + t.subrange(i + 1, t.len() as int),
    }
}

/// `s` without its dots.
pub open spec fn without_dots(s: Seq<char>) -> Seq<char>
    decreases s.len(),
{
    if s.len() == 0 {
        s
    } else if s.last() == '.' {
        without_dots(s.drop_last())
    } else {
        without_dots(s.drop_last()).push(s.last())
    }
}

/// Where the last slash of `cs[0..end]` stands.
fn find_last_slash(cs: &Vec<char>, end: usize) -> (r: Option<usize>)
    requires
        end <= cs@.len(),
    ensures
        r matches Some(i) ==> i < end,
        match r {
            Some(i) => last_slash(cs@.subrange(0, end as int)) == Some(i as int),
            None => last_slash(cs@.subrange(0, end as int)) is None,
        },
{
    let mut j = end;
    while j > 0
        invariant
            j <= end <= cs@.len(),
            last_slash(cs@.subrange(0, end as int)) == last_slash(cs@.subrange(0, j as int)),
        decreases j,
    {
        if cs[j - 1] == '/' {
            return Some(j - 1);
        }
        assert(cs@.subrange(0, j as int).drop_last() =~= cs@.subrange(0, j - 1));
        j = j - 1;
    }
    None
}

/// A short window name for `path`: the last two components, the first cut to
/// four characters (`/home/user/projects/myapp` gives `proj/myapp`).
pub fn trim_window_name(path: &str) -> (r: String)
    ensures
        r@ == window_name(path@),
{
    let cs = chars_of(path);
    let mut end = cs.len();
    assert(cs@.subrange(0, cs@.len() as int) =~= cs@);
    while end > 0 && cs[end - 1] == '/'
        invariant
            end <= cs@.len(),
            trim_trailing_slashes(path@) == trim_trailing_slashes(cs@.subrange(0, end as int)),
        decreases end,
    {
        assert(cs@.subrange(0, end as int).drop_last() =~= cs@.subrange(0, end - 1));
        end = end - 1;
    }
    let ghost t = cs@.subrange(0, end as int);
    assert(trim_trailing_slashes(t) == t);
    match find_last_slash(&cs, end) {
        None => string_of(&slice_chars(&cs, 0, end)),
        Some(i) => {
            let start = match find_last_slash(&cs, i) {
                Some(j) => j + 1,
                None => 0,
            };
            let stop = if i - start > 4 { start + 4 } else { i };
            let mut out = slice_chars(&cs, start, stop);
            out.push('/');
            let last = slice_chars(&cs, i + 1, end);
            let mut k: usize = 0;
            let ghost head = out@;
            while k < last.len()
                invariant
                    k <= last@.len(),
                    out@ == head + last@.subrange(0, k as int),
                decreases last.len() - k,
            {
                out.push(last[k]);
                k = k + 1;
            }
            proof {
                assert(t.subrange(0, i as int) =~= cs@.subrange(0, i as int));
                let h = t.subrange(0, i as int);
                assert(last_component(h) =~= cs@.subrange(start as int, i as int));
                assert(first_four(last_component(h)) =~= cs@.subrange(start as int, stop as int));
                assert(t.subrange(i + 1, t.len() as int) =~= last@);
                assert(out@ =~= window_name(path@));
            }
            string_of(&out)
        },
    }
}

/// `name` without its dots, as session names may not hold them.
pub fn trim_session_name(name: &String) -> (r: String)
    ensures
        r@ == without_dots(name@),
{
    let cs = chars_of(name.as_str());
    let mut r = String::new();
    let mut i: usize = 0;
    while i < cs.len()
        invariant
            cs@ == name@,
            i <= cs@.len(),
            r@ == without_dots(cs@.subrange(0, i as int)),
        decreases cs.len() - i,
    {
        assert(cs@.subrange(0, i + 1).drop_last() =~= cs@.subrange(0, i as int));
        if cs[i] != '.' {
            push_char(&mut r, cs[i]);
        }
        i = i + 1;
    }
    assert(cs@.subrange(0, cs@.len() as int) =~= cs@);
    r
}

} // verus!
