//! A structural comparison of two field lists: which fields were probably
//! renamed, which were removed and which added; and the text of the step
//! that such a comparison suggests.

use vstd::prelude::*;
use vstd::string::StringExecFns;
use crate::order::{arranged, by_name, positions, sorted_by_name, type_texts};
use crate::table::Table;

verus! {

/// One difference between an older and a newer field list.
#[derive(Debug, PartialEq, Eq)]
pub enum FieldChange {
    /// The field is new.
    Added { name: String, ty: String },
    /// The field is gone.
    Removed { name: String, ty: String },
    /// The field kept its name and changed its type. The comparison of
    /// two field lists reports such a field as removed and added; this
    /// change is for a list of changes that is written by hand.
    TypeChanged { name: String, old_ty: String, new_ty: String },
    /// A field that is gone and a field that is new have the same type.
    Renamed { old_name: String, new_name: String, ty: String },
}

/// The mathematical content of a [`FieldChange`].
pub ghost enum ChangeView {
    Added { name: Seq<char>, ty: Seq<char> },
    Removed { name: Seq<char>, ty: Seq<char> },
    TypeChanged { name: Seq<char>, old_ty: Seq<char>, new_ty: Seq<char> },
    Renamed { old_name: Seq<char>, new_name: Seq<char>, ty: Seq<char> },
}

impl View for FieldChange {
    type V = ChangeView;

    open spec fn view(&self) -> ChangeView {
        match self {
            FieldChange::Added { name, ty } => ChangeView::Added { name: name@, ty: ty@ },
            FieldChange::Removed { name, ty } => ChangeView::Removed { name: name@, ty: ty@ },
            FieldChange::TypeChanged { name, old_ty, new_ty } => ChangeView::TypeChanged {
                name: name@,
                old_ty: old_ty@,
                new_ty: new_ty@,
            },
            FieldChange::Renamed { old_name, new_name, ty } => ChangeView::Renamed {
                old_name: old_name@,
                new_name: new_name@,
                ty: ty@,
            },
        }
    }
}

/// The content of a list of changes.
pub open spec fn changes_view(changes: Seq<FieldChange>) -> Seq<ChangeView> {
    Seq::new(changes.len(), |i: int| changes[i]@)
}

/// The differences found for one type.
#[derive(Debug)]
pub struct AnalysisResult {
    pub struct_name: String,
    pub changes: Vec<FieldChange>,
}

/// A field list: names without repetition, and the text of each type.
pub ghost struct Fields {
    pub names: Seq<Seq<char>>,
    pub types: Seq<Seq<char>>,
}

/// The field list that a table of type texts holds, in its order.
pub open spec fn fields_of(t: Table<String>) -> Fields {
    Fields { names: t.keys(), types: type_texts(t) }
}

/// A field list with its fields in the order of their names.
pub open spec fn in_name_order(f: Fields) -> Fields {
    Fields {
        names: arranged(f.names, by_name(f.names)),
        types: arranged(f.types, by_name(f.names)),
    }
}

/// Whether a field list holds a field of that name with that type.
pub open spec fn holds(f: Fields, name: Seq<char>, ty: Seq<char>) -> bool {
    exists|j: int| 0 <= j < f.names.len() && #[trigger] f.names[j] == name && f.types[j] == ty
}

/// The positions, among the first `k` fields of `a`, of those that `b`
/// does not hold under the same name with the same type.
pub open spec fn unmatched(a: Fields, b: Fields, k: int) -> Seq<int>
    decreases k,
{
    if k <= 0 {
        Seq::empty()
    } else {
        let rest = unmatched(a, b, k - 1);
        if holds(b, a.names[k - 1], a.types[k - 1]) {
            rest
        } else {
            rest.push(k - 1)
        }
    }
}

/// The first place at or after `from` in `un` whose field of `b` has the
/// type `ty` and is not taken yet.
pub open spec fn first_free(b: Fields, un: Seq<int>, taken: Set<int>, ty: Seq<char>, from: int) -> Option<
    int,
>
    decreases un.len() - from,
{
    if from < 0 || from >= un.len() {
        None
    } else if b.types[un[from]] == ty && !taken.contains(from) {
        Some(from)
    } else {
        first_free(b, un, taken, ty, from + 1)
    }
}

/// The renames found so far: the changes, the places in the list of gone
/// fields that were matched, and the places in the list of new fields that
/// were taken.
pub ghost struct Matching {
    pub renames: Seq<ChangeView>,
    pub renamed: Set<int>,
    pub taken: Set<int>,
}

/// The renames found for the first `k` of the fields that are gone. Each,
/// in its turn, is matched with the first new field of the same type that
/// no earlier one has taken.
pub open spec fn matching(a: Fields, b: Fields, uo: Seq<int>, un: Seq<int>, k: int) -> Matching
    decreases k,
{
    if k <= 0 {
        Matching { renames: Seq::empty(), renamed: Set::empty(), taken: Set::empty() }
    } else {
        let m = matching(a, b, uo, un, k - 1);
        match first_free(b, un, m.taken, a.types[uo[k - 1]], 0) {
            Some(q) => Matching {
                renames: m.renames.push(
                    ChangeView::Renamed {
                        old_name: a.names[uo[k - 1]],
                        new_name: b.names[un[q]],
                        ty: a.types[uo[k - 1]],
                    },
                ),
                renamed: m.renamed.insert(k - 1),
                taken: m.taken.insert(q),
            },
            None => m,
        }
    }
}

/// Among the first `k` of the fields that are gone, those that no rename
/// accounts for.
pub open spec fn removed(a: Fields, uo: Seq<int>, renamed: Set<int>, k: int) -> Seq<ChangeView>
    decreases k,
{
    if k <= 0 {
        Seq::empty()
    } else {
        let rest = removed(a, uo, renamed, k - 1);
        if renamed.contains(k - 1) {
            rest
        } else {
            rest.push(ChangeView::Removed { name: a.names[uo[k - 1]], ty: a.types[uo[k - 1]] })
        }
    }
}

/// Among the first `k` of the fields that are new, those that no rename
/// accounts for.
pub open spec fn added(b: Fields, un: Seq<int>, taken: Set<int>, k: int) -> Seq<ChangeView>
    decreases k,
{
    if k <= 0 {
        Seq::empty()
    } else {
        let rest = added(b, un, taken, k - 1);
        if taken.contains(k - 1) {
            rest
        } else {
            rest.push(ChangeView::Added { name: b.names[un[k - 1]], ty: b.types[un[k - 1]] })
        }
    }
}

/// The differences between an older field list `a` and a newer one `b`. A
/// field that both hold under one name with one type is unchanged. Of the
/// others, first the renames, then the fields removed, then the fields
/// added, each group in the order of its list.
pub open spec fn detected(a: Fields, b: Fields) -> Seq<ChangeView> {
    let uo = unmatched(a, b, a.names.len() as int);
    let un = unmatched(b, a, b.names.len() as int);
    let m = matching(a, b, uo, un, uo.len() as int);
    m.renames + removed(a, uo, m.renamed, uo.len() as int) + added(
        b,
        un,
        m.taken,
        un.len() as int,
    )
}

proof fn lemma_renames_are_renames(a: Fields, b: Fields, uo: Seq<int>, un: Seq<int>, k: int)
    ensures
        forall|i: int|
            0 <= i < matching(a, b, uo, un, k).renames.len() ==> (#[trigger] matching(
                a,
                b,
                uo,
                un,
                k,
            ).renames[i]) is Renamed,
    decreases k,
{
    if k > 0 {
        lemma_renames_are_renames(a, b, uo, un, k - 1);
    }
}

proof fn lemma_removed_are_removed(a: Fields, uo: Seq<int>, renamed: Set<int>, k: int)
    ensures
        forall|i: int|
            0 <= i < removed(a, uo, renamed, k).len() ==> (#[trigger] removed(
                a,
                uo,
                renamed,
                k,
            )[i]) is Removed,
    decreases k,
{
    if k > 0 {
        lemma_removed_are_removed(a, uo, renamed, k - 1);
    }
}

proof fn lemma_added_are_added(b: Fields, un: Seq<int>, taken: Set<int>, k: int)
    ensures
        forall|i: int|
            0 <= i < added(b, un, taken, k).len() ==> (#[trigger] added(b, un, taken, k)[i]) is Added,
    decreases k,
{
    if k > 0 {
        lemma_added_are_added(b, un, taken, k - 1);
    }
}

/// The comparison of two field lists finds renames, removals and
/// additions, and never a change of type: a field whose type changed is
/// removed and added.
pub proof fn law_no_change_of_type_is_detected(a: Fields, b: Fields)
    ensures
        forall|i: int|
            0 <= i < detected(a, b).len() ==> !((#[trigger] detected(a, b)[i]) is TypeChanged),
{
    let uo = unmatched(a, b, a.names.len() as int);
    let un = unmatched(b, a, b.names.len() as int);
    let m = matching(a, b, uo, un, uo.len() as int);
    lemma_renames_are_renames(a, b, uo, un, uo.len() as int);
    lemma_removed_are_removed(a, uo, m.renamed, uo.len() as int);
    lemma_added_are_added(b, un, m.taken, un.len() as int);
}

proof fn lemma_all_matched(a: Fields, k: int)
    requires
        k <= a.names.len(),
    ensures
        unmatched(a, a, k) == Seq::<int>::empty(),
    decreases k,
{
    if k > 0 {
        lemma_all_matched(a, k - 1);
        assert(a.names[k - 1] == a.names[k - 1]);
    }
}

/// A field list compared with itself shows no change.
pub proof fn law_same_lists_show_no_change(a: Fields)
    ensures
        detected(a, a) == Seq::<ChangeView>::empty(),
{
    lemma_all_matched(a, a.names.len() as int);
    assert(detected(a, a) =~= Seq::<ChangeView>::empty());
}

fn lacking(a: &Table<String>, b: &Table<String>) -> (r: Vec<usize>)
    ensures
        positions(r@) == unmatched(fields_of(*a), fields_of(*b), a.keys().len() as int),
        forall|i: int| 0 <= i < r.len() ==> (#[trigger] r@[i]) < a.keys().len(),
{
    proof {
        use_type_invariant(a);
        use_type_invariant(b);
    }
    let mut out: Vec<usize> = Vec::new();
    let mut i: usize = 0;
    assert(positions(out@) =~= Seq::empty());
    while i < a.len()
        invariant
            a.wf(),
            b.wf(),
            i <= a.keys().len(),
            positions(out@) == unmatched(fields_of(*a), fields_of(*b), i as int),
            forall|j: int| 0 <= j < out.len() ==> (#[trigger] out@[j]) < a.keys().len(),
        decreases a.keys().len() - i,
    {
        let ghost before = positions(out@);
        let ghost fa = fields_of(*a);
        let ghost fb = fields_of(*b);
        let kept = match b.find(a.key_at(i).as_str()) {
            Some(j) => {
                let same = *b.value_at(j) == *a.value_at(i);
                proof {
                    assert(fb.names[j as int] == fa.names[i as int]);
                    assert(fb.types[j as int] == b.vals()[j as int]@);
                    if !same && holds(fb, fa.names[i as int], fa.types[i as int]) {
                        let x = choose|x: int|
                            0 <= x < fb.names.len() && #[trigger] fb.names[x] == fa.names[i as int]
                                && fb.types[x] == fa.types[i as int];
                        assert(x == j);
                    }
                }
                same
            },
            None => false,
        };
        assert(kept == holds(fb, fa.names[i as int], fa.types[i as int]));
        if !kept {
            out.push(i);
            assert(positions(out@) =~= before.push(i as int));
        }
        i = i + 1;
    }
    out
}

fn find_free(b: &Table<String>, un: &Vec<usize>, taken: &Vec<bool>, ty: &String, Ghost(set): Ghost<
    Set<int>,
>) -> (r: Option<usize>)
    requires
        taken.len() == un.len(),
        forall|q: int| 0 <= q < un.len() ==> (#[trigger] un@[q]) < b.keys().len(),
        forall|q: int| 0 <= q < un.len() ==> (#[trigger] taken@[q] <==> set.contains(q)),
    ensures
        match r {
            Some(q) => q < un.len() && first_free(fields_of(*b), positions(un@), set, ty@, 0)
                == Some(q as int),
            None => first_free(fields_of(*b), positions(un@), set, ty@, 0) is None,
        },
{
    proof {
        use_type_invariant(b);
    }
    let mut q: usize = 0;
    while q < un.len()
        invariant
            b.wf(),
            q <= un.len(),
            taken.len() == un.len(),
            forall|q: int| 0 <= q < un.len() ==> (#[trigger] un@[q]) < b.keys().len(),
            forall|q: int| 0 <= q < un.len() ==> (#[trigger] taken@[q] <==> set.contains(q)),
            first_free(fields_of(*b), positions(un@), set, ty@, 0) == first_free(
                fields_of(*b),
                positions(un@),
                set,
                ty@,
                q as int,
            ),
        decreases un.len() - q,
    {
        assert(positions(un@)[q as int] == un@[q as int] as int);
        assert(fields_of(*b).types[un@[q as int] as int] == b.vals()[un@[q as int] as int]@);
        if *b.value_at(un[q]) == *ty && !taken[q] {
            return Some(q);
        }
        q = q + 1;
    }
    None
}

fn all_false(n: usize) -> (r: Vec<bool>)
    ensures
        r.len() == n,
        forall|i: int| 0 <= i < n ==> !(#[trigger] r@[i]),
{
    let mut out: Vec<bool> = Vec::new();
    while out.len() < n
        invariant
            out.len() <= n,
            forall|i: int| 0 <= i < out.len() ==> !(#[trigger] out@[i]),
        decreases n - out.len(),
    {
        out.push(false);
    }
    out
}

/// The differences between an older and a newer field list, each taken
/// in the order in which it stands.
fn compare(old_fields: &Table<String>, new_fields: &Table<String>) -> (changes: Vec<FieldChange>)
    ensures
        changes_view(changes@) == detected(fields_of(*old_fields), fields_of(*new_fields)),
{
    proof {
        use_type_invariant(old_fields);
        use_type_invariant(new_fields);
    }
    let ghost a = fields_of(*old_fields);
    let ghost b = fields_of(*new_fields);
    let mut changes: Vec<FieldChange> = Vec::new();
    let uo = lacking(old_fields, new_fields);
    let un = lacking(new_fields, old_fields);
    let mut renamed = all_false(uo.len());
    let mut taken = all_false(un.len());
    let ghost guo = positions(uo@);
    let ghost gun = positions(un@);
    let mut p: usize = 0;
    assert(changes_view(changes@) =~= matching(a, b, guo, gun, 0).renames);
    while p < uo.len()
        invariant
            old_fields.wf(),
            new_fields.wf(),
            p <= uo.len(),
            a == fields_of(*old_fields),
            b == fields_of(*new_fields),
            guo == positions(uo@),
            gun == positions(un@),
            renamed.len() == uo.len(),
            taken.len() == un.len(),
            forall|i: int| 0 <= i < uo.len() ==> (#[trigger] uo@[i]) < old_fields.keys().len(),
            forall|i: int| 0 <= i < un.len() ==> (#[trigger] un@[i]) < new_fields.keys().len(),
            forall|i: int|
                0 <= i < uo.len() ==> (#[trigger] renamed@[i] <==> matching(
                    a,
                    b,
                    guo,
                    gun,
                    p as int,
                ).renamed.contains(i)),
            forall|q: int|
                0 <= q < un.len() ==> (#[trigger] taken@[q] <==> matching(
                    a,
                    b,
                    guo,
                    gun,
                    p as int,
                ).taken.contains(q)),
            changes_view(changes@) == matching(a, b, guo, gun, p as int).renames,
        decreases uo.len() - p,
    {
        let ghost m = matching(a, b, guo, gun, p as int);
        let ghost before = changes_view(changes@);
        let old_name = old_fields.key_at(uo[p]);
        let old_ty = old_fields.value_at(uo[p]);
        let ghost next = matching(a, b, guo, gun, p + 1);
        assert(guo[p as int] == uo@[p as int] as int);
        assert(a.types[guo[p as int]] == old_ty@);
        assert(a.names[guo[p as int]] == old_name@);
        match find_free(new_fields, &un, &taken, old_ty, Ghost(m.taken)) {
            Some(q) => {
                assert(gun[q as int] == un@[q as int] as int);
                assert(b.names[gun[q as int]] == new_fields.keys()[un@[q as int] as int]);
                let change = FieldChange::Renamed {
                    old_name: old_name.clone(),
                    new_name: new_fields.key_at(un[q]).clone(),
                    ty: old_ty.clone(),
                };
                let ghost cv = change@;
                changes.push(change);
                renamed.set(p, true);
                taken.set(q, true);
                assert(changes_view(changes@) =~= before.push(cv));
                assert(next.renames == m.renames.push(cv));
                assert(next.renamed == m.renamed.insert(p as int));
                assert(next.taken == m.taken.insert(q as int));
                assert forall|i: int| 0 <= i < uo.len() implies (#[trigger] renamed@[i]
                    <==> next.renamed.contains(i)) by {}
                assert forall|i: int| 0 <= i < un.len() implies (#[trigger] taken@[i]
                    <==> next.taken.contains(i)) by {}
            },
            None => {
                assert(next == m);
            },
        }
        p = p + 1;
    }
    let ghost m = matching(a, b, guo, gun, guo.len() as int);
    let ghost second = changes_view(changes@);
    let mut p: usize = 0;
    assert(second + removed(a, guo, m.renamed, 0) =~= second);
    while p < uo.len()
        invariant
            old_fields.wf(),
            p <= uo.len(),
            a == fields_of(*old_fields),
            guo == positions(uo@),
            renamed.len() == uo.len(),
            forall|i: int| 0 <= i < uo.len() ==> (#[trigger] uo@[i]) < old_fields.keys().len(),
            forall|i: int| 0 <= i < uo.len() ==> (#[trigger] renamed@[i] <==> m.renamed.contains(i)),
            changes_view(changes@) == second + removed(a, guo, m.renamed, p as int),
        decreases uo.len() - p,
    {
        let ghost before = changes_view(changes@);
        let ghost sofar = removed(a, guo, m.renamed, p as int);
        assert(guo[p as int] == uo@[p as int] as int);
        assert(a.types[guo[p as int]] == old_fields.vals()[uo@[p as int] as int]@);
        if !renamed[p] {
            let change = FieldChange::Removed {
                name: old_fields.key_at(uo[p]).clone(),
                ty: old_fields.value_at(uo[p]).clone(),
            };
            let ghost cv = change@;
            changes.push(change);
            assert(changes_view(changes@) =~= before.push(cv));
            assert(second + sofar.push(cv) =~= (second + sofar).push(cv));
        }
        p = p + 1;
    }
    let ghost third = changes_view(changes@);
    let mut q: usize = 0;
    assert(third + added(b, gun, m.taken, 0) =~= third);
    while q < un.len()
        invariant
            new_fields.wf(),
            q <= un.len(),
            b == fields_of(*new_fields),
            gun == positions(un@),
            taken.len() == un.len(),
            forall|i: int| 0 <= i < un.len() ==> (#[trigger] un@[i]) < new_fields.keys().len(),
            forall|i: int| 0 <= i < un.len() ==> (#[trigger] taken@[i] <==> m.taken.contains(i)),
            changes_view(changes@) == third + added(b, gun, m.taken, q as int),
        decreases un.len() - q,
    {
        let ghost before = changes_view(changes@);
        let ghost sofar = added(b, gun, m.taken, q as int);
        assert(gun[q as int] == un@[q as int] as int);
        assert(b.types[gun[q as int]] == new_fields.vals()[un@[q as int] as int]@);
        if !taken[q] {
            let change = FieldChange::Added {
                name: new_fields.key_at(un[q]).clone(),
                ty: new_fields.value_at(un[q]).clone(),
            };
            let ghost cv = change@;
            changes.push(change);
            assert(changes_view(changes@) =~= before.push(cv));
            assert(third + sofar.push(cv) =~= (third + sofar).push(cv));
        }
        q = q + 1;
    }
    assert(guo.len() == uo.len() && gun.len() == un.len());
    changes
}

/// The differences between an older and a newer field list, both read in
/// the order of their names. A field that both hold under one name with
/// one type is unchanged. Of the others, each field that is gone is
/// matched, in its turn, with the first new field of the same type that is
/// still free: a rename. What is left was removed or added.
pub fn detect_changes(old_fields: &Table<String>, new_fields: &Table<String>) -> (changes: Vec<
    FieldChange,
>)
    ensures
        changes_view(changes@) == detected(
            in_name_order(fields_of(*old_fields)),
            in_name_order(fields_of(*new_fields)),
        ),
{
    let older = sorted_by_name(old_fields);
    let newer = sorted_by_name(new_fields);
    compare(&older, &newer)
}

/// The line of a step that records one change. A change of type gets a
/// converter that is left to be written.
pub open spec fn rule_line(c: ChangeView) -> Seq<char> {
    match c {
        ChangeView::Added { name, ty } => "    + "@ + name + ": "@ + ty + ","@,
        ChangeView::Removed { name, ty } => "    - "@ + name + ": "@ + ty + ","@,
        ChangeView::TypeChanged { name, old_ty, new_ty } => "    "@ + name + ": "@ + old_ty
            + " => "@ + new_ty + " { /* TODO: Add converter */ },"@,
        ChangeView::Renamed { old_name, new_name, ty } => "    "@ + old_name + " => "@ + new_name
            + ": "@ + ty + ","@,
    }
}

/// The lines of the first `k` changes, one below the other.
pub open spec fn rule_lines(changes: Seq<ChangeView>, k: int) -> Seq<char>
    decreases k,
{
    if k <= 0 {
        Seq::empty()
    } else if k == 1 {
        rule_line(changes[0])
    } else {
        rule_lines(changes, k - 1) + "\n"@ + rule_line(changes[k - 1])
    }
}

/// The text of the step that the changes suggest: the attribute that
/// declares a step between the two versions, with one line for each change;
/// or, where nothing changed, the bare attribute under a remark.
pub open spec fn migration_code(
    changes: Seq<ChangeView>,
    from_version: Seq<char>,
    to_version: Seq<char>,
    from_commit: Seq<char>,
    to_commit: Seq<char>,
) -> Seq<char> {
    if changes.len() == 0 {
        "// No changes detected between "@ + from_commit + " and "@ + to_commit
            + "\n#[migration(\""@ + from_version + "\" => \""@ + to_version + "\")]"@
    } else {
        "#[migration(\""@ + from_version + "\" => \""@ + to_version + "\" {\n"@ + rule_lines(
            changes,
            changes.len() as int,
        ) + "\n})]"@
    }
}

fn line_of(change: &FieldChange) -> (r: String)
    ensures
        r@ == rule_line(change@),
{
    match change {
        FieldChange::Added { name, ty } => {
            let mut s = String::from_str("    + ");
            s.append(name.as_str());
            s.append(": ");
            s.append(ty.as_str());
            s.append(",");
            s
        },
        FieldChange::Removed { name, ty } => {
            let mut s = String::from_str("    - ");
            s.append(name.as_str());
            s.append(": ");
            s.append(ty.as_str());
            s.append(",");
            s
        },
        FieldChange::TypeChanged { name, old_ty, new_ty } => {
            let mut s = String::from_str("    ");
            s.append(name.as_str());
            s.append(": ");
            s.append(old_ty.as_str());
            s.append(" => ");
            s.append(new_ty.as_str());
            s.append(" { /* TODO: Add converter */ },");
            s
        },
        FieldChange::Renamed { old_name, new_name, ty } => {
            let mut s = String::from_str("    ");
            s.append(old_name.as_str());
            s.append(" => ");
            s.append(new_name.as_str());
            s.append(": ");
            s.append(ty.as_str());
            s.append(",");
            s
        },
    }
}

/// Writes the step that the analysis suggests for the two versions. The
/// commits are named only where the analysis found no change.
pub fn generate_migration_code(
    result: &AnalysisResult,
    from_version: &str,
    to_version: &str,
    from_commit: &str,
    to_commit: &str,
) -> (code: String)
    ensures
        code@ == migration_code(
            changes_view(result.changes@),
            from_version@,
            to_version@,
            from_commit@,
            to_commit@,
        ),
{
    if result.changes.len() == 0 {
        let mut s = String::from_str("// No changes detected between ");
        s.append(from_commit);
        s.append(" and ");
        s.append(to_commit);
        s.append("\n#[migration(\"");
        s.append(from_version);
        s.append("\" => \"");
        s.append(to_version);
        s.append("\")]");
        return s;
    }
    let ghost cv = changes_view(result.changes@);
    let mut rules = line_of(&result.changes[0]);
    let mut i: usize = 1;
    while i < result.changes.len()
        invariant
            1 <= i <= result.changes.len(),
            cv == changes_view(result.changes@),
            rules@ == rule_lines(cv, i as int),
        decreases result.changes.len() - i,
    {
        let line = line_of(&result.changes[i]);
        rules.append("\n");
        rules.append(line.as_str());
        i = i + 1;
    }
    let mut s = String::from_str("#[migration(\"");
    s.append(from_version);
    s.append("\" => \"");
    s.append(to_version);
    s.append("\" {\n");
    s.append(rules.as_str());
    s.append("\n})]");
    s
}

/// One change as a line of a report.
pub open spec fn change_text(c: ChangeView) -> Seq<char> {
    match c {
        ChangeView::Added { name, ty } => "+ "@ + name + ": "@ + ty,
        ChangeView::Removed { name, ty } => "- "@ + name + ": "@ + ty,
        ChangeView::TypeChanged { name, old_ty, new_ty } => "~ "@ + name + ": "@ + old_ty + " => "@
            + new_ty,
        ChangeView::Renamed { old_name, new_name, ty } => "â†’ "@ + old_name + " => "@ + new_name
            + ": "@ + ty,
    }
}

/// The report of the first `k` changes, each on a line of its own, set in
/// by two spaces.
pub open spec fn report_lines(changes: Seq<ChangeView>, k: int) -> Seq<char>
    decreases k,
{
    if k <= 0 {
        Seq::empty()
    } else {
        report_lines(changes, k - 1) + "  "@ + change_text(changes[k - 1]) + "\n"@
    }
}

impl FieldChange {
    /// The change as a line of a report, without colour.
    pub fn describe(&self) -> (r: String)
        ensures
            r@ == change_text(self@),
    {
        match self {
            FieldChange::Added { name, ty } => {
                let mut s = String::from_str("+ ");
                s.append(name.as_str());
                s.append(": ");
                s.append(ty.as_str());
                s
            },
            FieldChange::Removed { name, ty } => {
                let mut s = String::from_str("- ");
                s.append(name.as_str());
                s.append(": ");
                s.append(ty.as_str());
                s
            },
            FieldChange::TypeChanged { name, old_ty, new_ty } => {
                let mut s = String::from_str("~ ");
                s.append(name.as_str());
                s.append(": ");
                s.append(old_ty.as_str());
                s.append(" => ");
                s.append(new_ty.as_str());
                s
            },
            FieldChange::Renamed { old_name, new_name, ty } => {
                let mut s = String::from_str("â†’ ");
                s.append(old_name.as_str());
                s.append(" => ");
                s.append(new_name.as_str());
                s.append(": ");
                s.append(ty.as_str());
                s
            },
        }
    }
}

impl AnalysisResult {
    /// The analysis as a report, without colour: the name of the type, then
    /// the changes, one on each line.
    pub fn describe(&self) -> (r: String)
        ensures
            r@ == "Struct: "@ + self.struct_name@ + "\nChanges:\n"@ + report_lines(
                changes_view(self.changes@),
                self.changes@.len() as int,
            ),
    {
        let mut head = String::from_str("Struct: ");
        head.append(self.struct_name.as_str());
        head.append("\nChanges:\n");
        let ghost cv = changes_view(self.changes@);
        let mut lines = String::new();
        let mut i: usize = 0;
        while i < self.changes.len()
            invariant
                i <= self.changes.len(),
                cv == changes_view(self.changes@),
                lines@ == report_lines(cv, i as int),
            decreases self.changes.len() - i,
        {
            let line = self.changes[i].describe();
            lines.append("  ");
            lines.append(line.as_str());
            lines.append("\n");
            i = i + 1;
        }
        head.append(lines.as_str());
        head
    }
}

} // verus!
