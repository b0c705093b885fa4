use vstd::prelude::*;
use vstd::std_specs::iter::IteratorSpec;

verus! {

/// Spaces and tabs: what may surround a tag that stands alone on its line.
pub open spec fn is_blank(c: char) -> bool {
    c == ' ' || c == '\t'
}

/// Every character of `s` in `[from, to)` is blank.
pub open spec fn all_blank(s: Seq<char>, from: int, to: int) -> bool {
    forall|i: int| from <= i < to ==> is_blank(#[trigger] s[i])
}

/// `pat` occurs in `s` at `pos`.
pub open spec fn occurs_at(s: Seq<char>, pos: int, pat: Seq<char>) -> bool {
    0 <= pos && pos + pat.len() <= s.len() && s.subrange(pos, pos + pat.len()) == pat
}

pub fn occurs_at_exec(s: &Vec<char>, pos: usize, pat: &Vec<char>) -> (r: bool)
    ensures
        r == occurs_at(s@, pos as int, pat@),
{
    if pos > s.len() || pat.len() > s.len() - pos {
        return false;
    }
    let mut i: usize = 0;
    while i < pat.len()
        invariant
            i <= pat.len(),
            pos + pat.len() <= s.len(),
            forall|j: int| 0 <= j < i ==> s@[pos + j] == pat@[j],
        decreases pat.len() - i,
    {
        if s[pos + i] != pat[i] {
            assert(s@.subrange(pos as int, pos + pat.len())[i as int] != pat@[i as int]);
            return false;
        }
        i = i + 1;
    }
    assert(s@.subrange(pos as int, pos + pat.len()) =~= pat@);
    true
}

/// The first position at or after `from` where `pat` occurs.
pub open spec fn first_occ(s: Seq<char>, from: int, pat: Seq<char>) -> Option<int> {
    if exists|k: int| from <= k && occurs_at(s, k, pat) {
        Some(
            choose|k: int|
                from <= k && occurs_at(s, k, pat) && forall|j: int|
                    from <= j < k ==> !occurs_at(s, j, pat),
        )
    } else {
        None
    }
}

/// Finds the first position at or after `from` where `pat` occurs.
pub fn find_from(s: &Vec<char>, from: usize, pat: &Vec<char>) -> (r: Option<usize>)
    requires
        from <= s.len(),
        pat.len() > 0,
    ensures
        match r {
            Some(k) => from <= k && occurs_at(s@, k as int, pat@) && forall|j: int|
                from <= j < k ==> !occurs_at(s@, j, pat@),
            None => forall|j: int| from <= j ==> !occurs_at(s@, j, pat@),
        },
        r == (match first_occ(s@, from as int, pat@) {
            Some(k) => Some(k as usize),
            None => None::<usize>,
        }),
{
    let mut k: usize = from;
    while k < s.len()
        invariant
            from <= k <= s.len(),
            forall|j: int| from <= j < k ==> !occurs_at(s@, j, pat@),
        decreases s.len() - k,
    {
        if occurs_at_exec(s, k, pat) {
            proof {
                let c = choose|c: int|
                    from <= c && occurs_at(s@, c, pat@) && forall|j: int|
                        from <= j < c ==> !occurs_at(s@, j, pat@);
                if c < k {
                } else if c > k {
                    assert(!occurs_at(s@, k as int, pat@));
                }
            }
            return Some(k);
        }
        k = k + 1;
    }
    proof {
        assert forall|j: int| from <= j implies !occurs_at(s@, j, pat@) by {
            if j >= s@.len() {
            }
        }
    }
    None
}

/// The characters of `s` in `[from, to)`.
pub fn slice(s: &Vec<char>, from: usize, to: usize) -> (r: Vec<char>)
    requires
        from <= to <= s.len(),
    ensures
        r@ == s@.subrange(from as int, to as int),
{
    let mut r: Vec<char> = Vec::new();
    let mut i: usize = from;
    while i < to
        invariant
            from <= i <= to <= s.len(),
            r@ == s@.subrange(from as int, i as int),
        decreases to - i,
    {
        r.push(s[i]);
        i = i + 1;
        assert(r@ =~= s@.subrange(from as int, i as int));
    }
    r
}

pub fn chars_eq(a: &Vec<char>, b: &Vec<char>) -> (r: bool)
    ensures
        r == (a@ == b@),
{
    if a.len() != b.len() {
        return false;
    }
    let mut i: usize = 0;
    while i < a.len()
        invariant
            i <= a.len() == b.len(),
            forall|j: int| 0 <= j < i ==> a@[j] == b@[j],
        decreases a.len() - i,
    {
        if a[i] != b[i] {
            return false;
        }
        i = i + 1;
    }
    assert(a@ =~= b@);
    true
}

/// Appends every character of `b` to `a`.
pub fn append_chars(a: &mut Vec<char>, b: &Vec<char>)
    ensures
        final(a)@ == old(a)@ + b@,
{
    let mut i: usize = 0;
    while i < b.len()
        invariant
            i <= b.len(),
            a@ == old(a)@ + b@.subrange(0, i as int),
        decreases b.len() - i,
    {
        a.push(b[i]);
        i = i + 1;
        assert(a@ =~= old(a)@ + b@.subrange(0, i as int));
    }
    assert(b@.subrange(0, b.len() as int) =~= b@);
}

/// Relies on std's `String::from_iter` over chars: the string holds exactly those characters.
#[verifier::external_body]
pub(crate) fn string_of(v: &Vec<char>) -> (r: String)
    ensures
        r@ == v@,
{
    v.iter().collect()
}

/// The characters of `s` in order.
pub fn chars_of(s: &str) -> (r: Vec<char>)
    ensures
        r@ == s@,
{
    broadcast use vstd::string::axiom_spec_iter;
    let mut it = s.chars();
    let mut v: Vec<char> = Vec::new();
    loop
        invariant
            it.obeys_prophetic_iter_laws(),
            it.decrease() is Some,
            v@ + it.remaining() == s@,
        decreases it.decrease()->0,
    {
        let ghost rem = it.remaining();
        let ghost before = v@;
        match it.next() {
            Some(c) => {
                v.push(c);
                assert(rem =~= seq![c] + it.remaining());
                assert(v@ + it.remaining() =~= before + rem);
            },
            None => {
                assert(v@ =~= s@);
                return v;
            },
        }
    }
}

} // verus!
