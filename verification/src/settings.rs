//! The persisted list of routed applications, restored at start-up.
use vstd::prelude::*;

verus! {

broadcast use vstd::seq_lib::group_seq_properties;

/// The bundle identifiers, as character sequences.
pub open spec fn names(v: Seq<String>) -> Seq<Seq<char>> {
    v.map_values(|s: String| s@)
}

/// Keeps every name but `bundle`.
pub open spec fn other_name(bundle: Seq<char>) -> spec_fn(Seq<char>) -> bool {
    |s: Seq<char>| s != bundle
}

/// Records `bundle` as routed, unless it is already recorded.
pub fn add_routed(routed: &mut Vec<String>, bundle: &String)
    ensures
        names(old(routed)@).contains(bundle@) ==> names(final(routed)@) == names(old(routed)@),
        !names(old(routed)@).contains(bundle@) ==> names(final(routed)@) == names(
            old(routed)@,
        ).push(bundle@),
{
    let ghost start = names(routed@);
    let mut i: usize = 0;
    while i < routed.len()
        invariant
            i <= routed@.len(),
            start == names(routed@),
            routed@ == old(routed)@,
            forall|k: int| 0 <= k < i ==> start[k] != bundle@,
        decreases routed@.len() - i,
    {
        if routed[i] == *bundle {
            assert(start[i as int] == bundle@);
            return;
        }
        i = i + 1;
    }
    routed.push(bundle.clone());
    assert(names(routed@) =~= start.push(bundle@));
}

/// Forgets `bundle`: every record of it goes, the rest keep their order.
pub fn remove_routed(routed: &mut Vec<String>, bundle: &String)
    ensures
        names(final(routed)@) == names(old(routed)@).filter(other_name(bundle@)),
{
    let ghost start = names(routed@);
    let mut kept: Vec<String> = Vec::new();
    let mut i: usize = 0;
    while i < routed.len()
        invariant
            i <= routed@.len(),
            start == names(routed@),
            routed@ == old(routed)@,
            names(kept@) == start.take(i as int).filter(other_name(bundle@)),
        decreases routed@.len() - i,
    {
        proof {
            assert(start.take(i + 1) =~= start.take(i as int).push(start[i as int]));
            start.take(i as int).lemma_filter_push(start[i as int], other_name(bundle@));
        }
        if routed[i] != *bundle {
            let ghost before = names(kept@);
            kept.push(routed[i].clone());
            assert(names(kept@) =~= before.push(start[i as int]));
        }
        i = i + 1;
    }
    assert(start.take(start.len() as int) =~= start);
    *routed = kept;
}

/// Recording a new application and then forgetting it gives back the list.
pub proof fn law_add_then_remove_routed(routed: Seq<Seq<char>>, bundle: Seq<char>)
    requires
        !routed.contains(bundle),
    ensures
        routed.push(bundle).filter(other_name(bundle)) == routed,
{
    routed.lemma_filter_push(bundle, other_name(bundle));
    crate::routing::lemma_filter_all(routed, other_name(bundle));
}

/// The list never records an application twice: recording keeps it free of
/// duplicates, and so does forgetting.
pub proof fn law_routed_no_duplicates(routed: Seq<Seq<char>>, bundle: Seq<char>)
    requires
        routed.no_duplicates(),
    ensures
        (if routed.contains(bundle) { routed } else { routed.push(bundle) }).no_duplicates(),
        routed.filter(other_name(bundle)).no_duplicates(),
        !routed.filter(other_name(bundle)).contains(bundle),
{
    crate::routing::lemma_filter_keys_distinct(routed, other_name(bundle), |s: Seq<char>| s);
    let f = routed.filter(other_name(bundle));
    if f.contains(bundle) {
        let k = choose|k: int| 0 <= k < f.len() && f[k] == bundle;
        routed.lemma_filter_pred(other_name(bundle), k);
    }
    if !routed.contains(bundle) {
        let p = routed.push(bundle);
        assert forall|i: int, j: int|
            0 <= i < p.len() && 0 <= j < p.len() && i != j implies p[i] != p[j] by {
            if i == routed.len() {
                assert(p[j] == routed[j]);
            } else if j == routed.len() {
                assert(p[i] == routed[i]);
            }
        }
    }
}

} // verus!
