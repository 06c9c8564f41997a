use vstd::prelude::*;

verus! {

/// The character sequences named by a sequence of strings, in order.
pub open spec fn name_views(v: Seq<String>) -> Seq<Seq<char>> {
    v.map_values(|s: String| s@)
}

/// No name occurs twice.
pub open spec fn distinct(s: Seq<Seq<char>>) -> bool {
    forall|i: int, j: int| 0 <= i < j < s.len() ==> s[i] != s[j]
}

/// Membership after a push: the pushed name, or one already present.
pub proof fn lemma_push_contains(s: Seq<Seq<char>>, x: Seq<char>, u: Seq<char>)
    ensures
        s.push(x).contains(u) == (s.contains(u) || u == x),
{
    if s.contains(u) {
        let j = choose|j: int| 0 <= j < s.len() && s[j] == u;
        assert(s.push(x)[j] == u);
    }
    if u == x {
        assert(s.push(x)[s.len() as int] == u);
    }
    if s.push(x).contains(u) {
        let j = choose|j: int| 0 <= j < s.push(x).len() && s.push(x)[j] == u;
        if j < s.len() {
            assert(s[j] == u);
        }
    }
}

/// Pushing a fresh name keeps the names distinct.
pub proof fn lemma_push_distinct(s: Seq<Seq<char>>, x: Seq<char>)
    requires
        distinct(s),
        !s.contains(x),
    ensures
        distinct(s.push(x)),
{
    let t = s.push(x);
    assert forall|i: int, j: int| 0 <= i < j < t.len() implies t[i] != t[j] by {
        if j == s.len() {
            assert(s[i] == t[i]);
        }
    }
}

/// Whether `name` is one of the names in `v`.
pub fn contains_name(v: &Vec<String>, name: &String) -> (r: bool)
    ensures
        r == name_views(v@).contains(name@),
{
    let n = v.len();
    let mut i: usize = 0;
    while i < n
        invariant
            n == v.len(),
            0 <= i <= n,
            forall|j: int| 0 <= j < i ==> name_views(v@)[j] != name@,
        decreases n - i,
    {
        if v[i] == *name {
            proof {
                assert(name_views(v@)[i as int] == name@);
            }
            return true;
        }
        i += 1;
    }
    proof {
        if name_views(v@).contains(name@) {
            let j = choose|j: int|
                0 <= j < name_views(v@).len() && name_views(v@)[j] == name@;
            assert(name_views(v@)[j] != name@);
        }
    }
    false
}

/// Appends `name` at the end of `v`.
pub fn push_name(v: &mut Vec<String>, name: String)
    ensures
        name_views(final(v)@) == name_views(old(v)@).push(name@),
{
    v.push(name);
    proof {
        assert(name_views(v@) =~= name_views(old(v)@).push(name@));
    }
}

/// Removes `name` from `v` if present. With distinct names, afterwards `v`
/// holds exactly the names other than `name`, still distinct.
pub fn remove_name(v: &mut Vec<String>, name: &String)
    requires
        distinct(name_views(old(v)@)),
    ensures
        distinct(name_views(final(v)@)),
        forall|u: Seq<char>|
            name_views(final(v)@).contains(u) == (name_views(old(v)@).contains(u) && u
                != name@),
{
    let ghost s = name_views(v@);
    let n = v.len();
    let mut i: usize = 0;
    while i < n
        invariant
            n == v.len(),
            0 <= i <= n,
            v@ == old(v)@,
            s == name_views(v@),
            distinct(s),
            forall|j: int| 0 <= j < i ==> s[j] != name@,
        decreases n - i,
    {
        if v[i] == *name {
            proof {
                assert(s[i as int] == name@);
            }
            let removed = v.remove(i);
            proof {
                let t = name_views(v@);
                assert(t =~= s.remove(i as int));
                assert(t =~= s.subrange(0, i as int) + s.subrange(i as int + 1, s.len() as int));
                assert forall|u: Seq<char>| t.contains(u) == (s.contains(u) && u != name@) by {
                    if t.contains(u) {
                        let j = choose|j: int| 0 <= j < t.len() && t[j] == u;
                        if j < i {
                            assert(s[j] == u);
                        } else {
                            assert(s[j + 1] == u);
                        }
                        // every surviving name differs from the removed one,
                        // because names were distinct
                        assert(u != name@);
                    }
                    if s.contains(u) && u != name@ {
                        let j = choose|j: int| 0 <= j < s.len() && s[j] == u;
                        if j < i {
                            assert(t[j] == u);
                        } else {
                            assert(j != i);
                            assert(t[j - 1] == u);
                        }
                    }
                }
                assert forall|a: int, b: int| 0 <= a < b < t.len() implies t[a] != t[b] by {
                    let a0: int = if a < i { a } else { a + 1 };
                    let b0: int = if b < i { b } else { b + 1 };
                    assert(t[a] == s[a0]);
                    assert(t[b] == s[b0]);
                }
            }
            return ;
        }
        i += 1;
    }
    proof {
        if s.contains(name@) {
            let j = choose|j: int| 0 <= j < s.len() && s[j] == name@;
            assert(s[j] != name@);
        }
    }
}

} // verus!
