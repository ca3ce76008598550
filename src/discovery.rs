//! Selection of the executable tools among a directory's entries, in
//! case-insensitive order.
use vstd::prelude::*;
use crate::text::{lower_of, lowercase, views_of};

verus! {

/// What the library needs to know of one directory entry.
pub struct ToolFile {
    /// The entry's file name.
    pub name: String,
    /// Whether the entry is a regular file (not a link or a directory).
    pub is_file: bool,
    /// The entry's permission bits.
    pub mode: u32,
}

/// The owner, group and other execute bits.
pub const EXEC_BITS: u32 = 0o111;

/// Whether a permission mask has any execute bit set.
pub fn has_exec_bit(mode: u32) -> (r: bool)
    ensures
        r == (mode & EXEC_BITS != 0),
{
    mode & EXEC_BITS != 0
}

/// Whether an entry is a tool: a regular file with an execute bit set.
pub open spec fn is_tool(e: ToolFile) -> bool {
    e.is_file && e.mode & EXEC_BITS != 0
}

/// The names of the tools among some entries, in the entries' order.
pub open spec fn tool_names(es: Seq<ToolFile>) -> Seq<Seq<char>>
    decreases es.len(),
{
    if es.len() == 0 {
        Seq::empty()
    } else if is_tool(es.last()) {
        tool_names(es.drop_last()).push(es.last().name@)
    } else {
        tool_names(es.drop_last())
    }
}

/// Lexicographic order of texts by their characters' code points, the
/// order of Rust's strings.
pub open spec fn lex_le(a: Seq<char>, b: Seq<char>) -> bool
    decreases a.len(),
{
    if a.len() == 0 {
        true
    } else if b.len() == 0 {
        false
    } else if a[0] != b[0] {
        (a[0] as int) < (b[0] as int)
    } else {
        lex_le(a.drop_first(), b.drop_first())
    }
}

/// Whether names stand in case-insensitive order.
pub open spec fn sorted_ignoring_case(names: Seq<Seq<char>>) -> bool {
    forall|i: int, j: int|
        0 <= i < j < names.len() ==> lex_le(lower_of(#[trigger] names[i]), lower_of(#[trigger] names[j]))
}

/// Whether `r` is the sequence `f` rearranged by the positions `p`
/// (`r[i]` is `f[p[i]]`), with names that are equal ignoring case left in
/// their order in `f`.
pub open spec fn stable_arrangement(r: Seq<Seq<char>>, f: Seq<Seq<char>>, p: Seq<int>) -> bool {
    &&& p.len() == r.len() == f.len()
    &&& forall|i: int| 0 <= i < p.len() ==> 0 <= #[trigger] p[i] < f.len() && r[i] == f[p[i]]
    &&& forall|i: int, j: int| 0 <= i < j < p.len() ==> #[trigger] p[i] != #[trigger] p[j]
    &&& forall|i: int, j: int|
        0 <= i < j < p.len() && lower_of(#[trigger] r[i]) == lower_of(#[trigger] r[j]) ==> p[i] < p[j]
}

/// Every text comes no later than itself.
pub proof fn lemma_lex_refl(a: Seq<char>)
    ensures
        lex_le(a, a),
    decreases a.len(),
{
    if a.len() > 0 {
        lemma_lex_refl(a.drop_first());
    }
}

/// Any two texts are ordered one way or the other.
pub proof fn lemma_lex_total(a: Seq<char>, b: Seq<char>)
    ensures
        lex_le(a, b) || lex_le(b, a),
    decreases a.len(),
{
    if a.len() > 0 && b.len() > 0 && a[0] == b[0] {
        lemma_lex_total(a.drop_first(), b.drop_first());
    }
}

/// The order is transitive.
pub proof fn lemma_lex_trans(a: Seq<char>, b: Seq<char>, c: Seq<char>)
    requires
        lex_le(a, b),
        lex_le(b, c),
    ensures
        lex_le(a, c),
    decreases a.len(),
{
    if a.len() > 0 && b.len() > 0 && c.len() > 0 && a[0] == b[0] && b[0] == c[0] {
        lemma_lex_trans(a.drop_first(), b.drop_first(), c.drop_first());
    }
}

/// Whether text `a` comes no later than text `b`.
fn text_le(a: &String, b: &String) -> (r: bool)
    ensures
        r == lex_le(a@, b@),
{
    let sa = a.as_str();
    let sb = b.as_str();
    let la = sa.unicode_len();
    let lb = sb.unicode_len();
    let mut i: usize = 0;
    assert(a@.skip(0) =~= a@);
    assert(b@.skip(0) =~= b@);
    while i < la && i < lb
        invariant
            i <= la == a@.len(),
            i <= lb == b@.len(),
            sa@ == a@,
            sb@ == b@,
            lex_le(a@, b@) == lex_le(a@.skip(i as int), b@.skip(i as int)),
        decreases la - i,
    {
        let ca = sa.get_char(i);
        let cb = sb.get_char(i);
        if ca != cb {
            return (ca as u32) < (cb as u32);
        }
        assert(a@.skip(i as int).drop_first() =~= a@.skip(i + 1));
        assert(b@.skip(i as int).drop_first() =~= b@.skip(i + 1));
        i = i + 1;
    }
    i == la
}

/// The tools among a directory's entries, in case-insensitive order of
/// their names; entries that are not regular files, or have no execute
/// bit set, are left out. Names equal but for case keep the entries'
/// order.
pub fn select_tools(entries: &Vec<ToolFile>) -> (r: Vec<String>)
    ensures
        views_of(r@).to_multiset() == tool_names(entries@).to_multiset(),
        sorted_ignoring_case(views_of(r@)),
        exists|p: Seq<int>| stable_arrangement(views_of(r@), tool_names(entries@), p),
{
    broadcast use vstd::seq_lib::group_to_multiset_ensures;

    let mut names: Vec<String> = Vec::new();
    let mut keys: Vec<String> = Vec::new();
    let ghost mut perm: Seq<int> = Seq::empty();
    let mut i: usize = 0;
    while i < entries.len()
        invariant
            i <= entries@.len(),
            names@.len() == keys@.len(),
            stable_arrangement(views_of(names@), tool_names(entries@.take(i as int)), perm),
            forall|k: int| 0 <= k < keys@.len() ==> #[trigger] keys@[k]@ == lower_of(names@[k]@),
            forall|k: int, l: int|
                0 <= k < l < keys@.len() ==> lex_le(#[trigger] keys@[k]@, #[trigger] keys@[l]@),
            views_of(names@).to_multiset() == tool_names(entries@.take(i as int)).to_multiset(),
        decreases entries@.len() - i,
    {
        assert(entries@.take(i + 1).drop_last() =~= entries@.take(i as int));
        assert(entries@.take(i + 1).last() == entries@[i as int]);
        let e = &entries[i];
        let ghost before = tool_names(entries@.take(i as int));
        proof {
            before.to_multiset_ensures();
        }
        if e.is_file && has_exec_bit(e.mode) {
            assert(tool_names(entries@.take(i + 1)) == before.push(e.name@));
            let key = lowercase(e.name.as_str());
            let mut p: usize = keys.len();
            while p > 0 && !text_le(&keys[p - 1], &key)
                invariant
                    p <= keys@.len(),
                    forall|q: int| p <= q < keys@.len() ==> lex_le(key@, #[trigger] keys@[q]@),
                    forall|q: int| p <= q < keys@.len() ==> !lex_le(#[trigger] keys@[q]@, key@),
                decreases p,
            {
                proof {
                    lemma_lex_total(keys@[p - 1]@, key@);
                }
                p = p - 1;
            }
            let ghost old_names = names@;
            let ghost old_keys = keys@;
            proof {
                if p > 0 {
                    assert forall|k: int| 0 <= k < p implies lex_le(#[trigger] old_keys[k]@, key@) by {
                        if k < p - 1 {
                            lemma_lex_trans(old_keys[k]@, old_keys[p - 1]@, key@);
                        }
                    }
                }
            }
            names.insert(p, e.name.clone());
            keys.insert(p, key);
            proof {
                let f = before;
                let np = perm.insert(p as int, f.len() as int);
                let r = views_of(names@);
                assert forall|k: int| 0 <= k < np.len() implies 0 <= #[trigger] np[k] < f.len() + 1
                    && r[k] == f.push(e.name@)[np[k]] by {
                    if k < p {
                        assert(r[k] == views_of(old_names)[k]);
                    } else if k > p {
                        assert(r[k] == views_of(old_names)[k - 1]);
                    }
                }
                assert forall|k: int, l: int|
                    0 <= k < l < np.len() && lower_of(#[trigger] r[k]) == lower_of(#[trigger] r[l])
                        implies np[k] < np[l] by {
                    if k == p {
                        assert(keys@[l]@ == old_keys[l - 1]@);
                        assert(lower_of(r[k]) == key@);
                        assert(lower_of(r[l]) == keys@[l]@);
                        lemma_lex_refl(key@);
                    } else if l == p {
                    } else {
                        let k0 = if k < p { k } else { k - 1 };
                        let l0 = if l < p { l } else { l - 1 };
                        assert(r[k] == views_of(old_names)[k0]);
                        assert(r[l] == views_of(old_names)[l0]);
                    }
                }
                perm = np;
                assert forall|k: int, l: int|
                    0 <= k < l < keys@.len() implies lex_le(#[trigger] keys@[k]@, #[trigger] keys@[l]@) by {
                    if k < p && l > p {
                        lemma_lex_trans(old_keys[k]@, key@, old_keys[l - 1]@);
                    }
                }
                let v = views_of(names@);
                assert(v.remove(p as int) =~= views_of(old_names));
                assert(v[p as int] == e.name@);
                v.to_multiset_ensures();
                assert(v.contains(e.name@));
                assert(v.to_multiset().count(e.name@) > 0);
                assert(views_of(old_names).to_multiset() == v.to_multiset().remove(e.name@));
                assert(v.to_multiset() =~= views_of(old_names).to_multiset().insert(e.name@));
            }
        }
        i = i + 1;
    }
    assert(entries@.take(entries@.len() as int) =~= entries@);
    proof {
        assert(stable_arrangement(views_of(names@), tool_names(entries@), perm));
        assert forall|k: int, l: int| 0 <= k < l < names@.len() implies lex_le(
            lower_of(#[trigger] views_of(names@)[k]),
            lower_of(#[trigger] views_of(names@)[l]),
        ) by {
            assert(keys@[k]@ == lower_of(names@[k]@));
            assert(keys@[l]@ == lower_of(names@[l]@));
        }
    }
    names
}

} // verus!
