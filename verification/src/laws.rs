//! Laws of the load pass, stated once over any record sequence.

use crate::catalog::entries_insert;
use crate::catalog::lemma_entries_insert_absent;
use crate::catalog::lemma_entries_insert_found;
use crate::index::pair_insert;
use crate::index::IndexView;
use crate::model::rows_apply;
use crate::model::rows_wf;
use crate::model::row_apply;
use crate::model::tag_step;
use crate::model::tags_fold;
use crate::model::DataView;
use crate::rating::rating_centi_of;
use crate::text::spec_split;
use crate::text::trim_of;
use vstd::prelude::*;

verus! {

/// The state before anything has been loaded.
pub open spec fn empty_data() -> DataView {
    DataView {
        catalog: Seq::<(Seq<char>, u32)>::empty(),
        index: IndexView {
            objects: Seq::<Seq<char>>::empty(),
            tags: Seq::<Seq<char>>::empty(),
            pairs: Seq::<(Seq<char>, Seq<char>)>::empty(),
        },
    }
}

/// The catalog entry a record contributes.
pub open spec fn row_entry(row: Seq<Seq<char>>) -> (Seq<char>, u32) {
    (row[1], rating_centi_of(row[5]))
}

proof fn lemma_tags_fold_catalog(d: DataView, id: Seq<char>, cats: Seq<Seq<char>>)
    ensures
        tags_fold(d, id, cats).catalog == d.catalog,
        tags_fold(d, id, cats).index.objects == d.index.objects,
    decreases cats.len(),
{
    if cats.len() > 0 {
        lemma_tags_fold_catalog(tag_step(d, id, cats[0]), id, cats.skip(1));
    }
}

proof fn lemma_pair_insert_mono(
    s: Seq<(Seq<char>, Seq<char>)>,
    q: (Seq<char>, Seq<char>),
    p: (Seq<char>, Seq<char>),
)
    requires
        s.contains(p),
    ensures
        pair_insert(s, q).contains(p),
{
    let w = choose|i: int| 0 <= i < s.len() && s[i] == p;
    assert(pair_insert(s, q)[w] == p);
}

proof fn lemma_tags_fold_pairs_mono(
    d: DataView,
    id: Seq<char>,
    cats: Seq<Seq<char>>,
    p: (Seq<char>, Seq<char>),
)
    requires
        d.index.pairs.contains(p),
    ensures
        tags_fold(d, id, cats).index.pairs.contains(p),
    decreases cats.len(),
{
    if cats.len() > 0 {
        let d1 = tag_step(d, id, cats[0]);
        if trim_of(cats[0]).len() > 0 {
            lemma_pair_insert_mono(d.index.pairs, (id, trim_of(cats[0])), p);
        }
        lemma_tags_fold_pairs_mono(d1, id, cats.skip(1), p);
    }
}

proof fn lemma_tags_fold_adds(d: DataView, id: Seq<char>, cats: Seq<Seq<char>>, c: int)
    requires
        0 <= c < cats.len(),
        trim_of(cats[c]).len() > 0,
    ensures
        tags_fold(d, id, cats).index.pairs.contains((id, trim_of(cats[c]))),
    decreases cats.len(),
{
    let d1 = tag_step(d, id, cats[0]);
    if c == 0 {
        let t = trim_of(cats[0]);
        if d.index.pairs.contains((id, t)) {
            lemma_pair_insert_mono(d.index.pairs, (id, t), (id, t));
        } else {
            assert(d1.index.pairs[d.index.pairs.len() as int] == (id, t));
        }
        lemma_tags_fold_pairs_mono(d1, id, cats.skip(1), (id, t));
    } else {
        assert(cats.skip(1)[c - 1] == cats[c]);
        lemma_tags_fold_adds(d1, id, cats.skip(1), c - 1);
    }
}

proof fn lemma_rows_apply_pairs_mono(d: DataView, rows: Seq<Seq<Seq<char>>>, p: (Seq<char>, Seq<char>))
    requires
        d.index.pairs.contains(p),
    ensures
        rows_apply(d, rows).index.pairs.contains(p),
    decreases rows.len(),
{
    if rows.len() > 0 {
        let row = rows[0];
        let head = DataView {
            catalog: entries_insert(d.catalog, row[1], rating_centi_of(row[5])),
            index: IndexView {
                objects: crate::index::dedup_insert(d.index.objects, row[1]),
                tags: d.index.tags,
                pairs: d.index.pairs,
            },
        };
        lemma_tags_fold_pairs_mono(head, row[1], spec_split(row[2]), p);
        lemma_rows_apply_pairs_mono(row_apply(d, row), rows.skip(1), p);
    }
}

proof fn lemma_rows_apply_catalog(d: DataView, rows: Seq<Seq<Seq<char>>>)
    requires
        forall|i: int, j: int| 0 <= i < j < rows.len() ==> rows[i][1] != rows[j][1],
        forall|i: int, k: int|
            0 <= i < rows.len() && 0 <= k < d.catalog.len() ==> d.catalog[k].0 != rows[i][1],
    ensures
        rows_apply(d, rows).catalog == d.catalog + rows.map_values(
            |row: Seq<Seq<char>>| row_entry(row),
        ),
    decreases rows.len(),
{
    if rows.len() == 0 {
        assert(rows_apply(d, rows).catalog =~= d.catalog + rows.map_values(
            |row: Seq<Seq<char>>| row_entry(row),
        ));
    } else {
        let row = rows[0];
        lemma_entries_insert_absent(d.catalog, row[1], rating_centi_of(row[5]));
        let d1 = row_apply(d, row);
        lemma_tags_fold_catalog(
            DataView {
                catalog: entries_insert(d.catalog, row[1], rating_centi_of(row[5])),
                index: IndexView {
                    objects: crate::index::dedup_insert(d.index.objects, row[1]),
                    tags: d.index.tags,
                    pairs: d.index.pairs,
                },
            },
            row[1],
            spec_split(row[2]),
        );
        assert(d1.catalog == d.catalog.push(row_entry(row)));
        assert(forall|i: int| 0 <= i < rows.skip(1).len() ==> rows.skip(1)[i] == rows[i + 1]);
        lemma_rows_apply_catalog(d1, rows.skip(1));
        assert(rows_apply(d, rows).catalog =~= d.catalog + rows.map_values(
            |row: Seq<Seq<char>>| row_entry(row),
        ));
    }
}

/// Catalog keys stay pairwise distinct under insertion: binding a known
/// identifier replaces its entry, so no identifier is ever held twice.
pub proof fn lemma_entries_insert_unique(s: Seq<(Seq<char>, u32)>, k: Seq<char>, v: u32)
    requires
        forall|i: int, j: int| 0 <= i < j < s.len() ==> s[i].0 != s[j].0,
    ensures
        forall|i: int, j: int|
            0 <= i < j < entries_insert(s, k, v).len() ==> entries_insert(s, k, v)[i].0
                != entries_insert(s, k, v)[j].0,
{
    if exists|i: int| 0 <= i < s.len() && s[i].0 == k {
        let w = choose|i: int| 0 <= i < s.len() && s[i].0 == k;
        assert(forall|j: int| 0 <= j < s.len() && j != w ==> s[j].0 != k);
        lemma_entries_insert_found(s, k, v, w);
        assert(entries_insert(s, k, v) == s.update(w, (k, v)));
    } else {
        lemma_entries_insert_absent(s, k, v);
        assert(entries_insert(s, k, v) == s.push((k, v)));
    }
}

/// After one full load pass over records with pairwise distinct
/// identifiers, starting from the empty state, the catalog holds exactly
/// one entry per record, in record order: the record's identifier with
/// its parsed-or-defaulted rating.
pub proof fn lemma_load_pass_catalog(rows: Seq<Seq<Seq<char>>>)
    requires
        rows_wf(rows),
        forall|i: int, j: int| 0 <= i < j < rows.len() ==> rows[i][1] != rows[j][1],
    ensures
        rows_apply(empty_data(), rows).catalog == rows.map_values(
            |row: Seq<Seq<char>>| row_entry(row),
        ),
{
    lemma_rows_apply_catalog(empty_data(), rows);
    assert(empty_data().catalog + rows.map_values(|row: Seq<Seq<char>>| row_entry(row)) =~= rows
        .map_values(|row: Seq<Seq<char>>| row_entry(row)));
}

/// After one full load pass, every record's identifier is associated
/// with each of its trimmed, non-empty categories.
pub proof fn lemma_load_pass_tags(rows: Seq<Seq<Seq<char>>>, i: int, c: int)
    requires
        rows_wf(rows),
        0 <= i < rows.len(),
        0 <= c < spec_split(rows[i][2]).len(),
        trim_of(spec_split(rows[i][2])[c]).len() > 0,
    ensures
        rows_apply(empty_data(), rows).index.pairs.contains(
            (rows[i][1], trim_of(spec_split(rows[i][2])[c])),
        ),
    decreases rows.len(),
{
    lemma_rows_apply_adds(empty_data(), rows, i, c);
}

proof fn lemma_rows_apply_adds(d: DataView, rows: Seq<Seq<Seq<char>>>, i: int, c: int)
    requires
        0 <= i < rows.len(),
        0 <= c < spec_split(rows[i][2]).len(),
        trim_of(spec_split(rows[i][2])[c]).len() > 0,
    ensures
        rows_apply(d, rows).index.pairs.contains((rows[i][1], trim_of(spec_split(rows[i][2])[c]))),
    decreases rows.len(),
{
    let row = rows[0];
    let head = DataView {
        catalog: entries_insert(d.catalog, row[1], rating_centi_of(row[5])),
        index: IndexView {
            objects: crate::index::dedup_insert(d.index.objects, row[1]),
            tags: d.index.tags,
            pairs: d.index.pairs,
        },
    };
    if i == 0 {
        lemma_tags_fold_adds(head, row[1], spec_split(row[2]), c);
        lemma_rows_apply_pairs_mono(
            row_apply(d, row),
            rows.skip(1),
            (row[1], trim_of(spec_split(row[2])[c])),
        );
    } else {
        assert(rows.skip(1)[i - 1] == rows[i]);
        lemma_rows_apply_adds(row_apply(d, row), rows.skip(1), i - 1, c);
    }
}


/// Membership in a sequence survives a push, and a push adds only the
/// pushed element.
proof fn lemma_push_contains<A>(s: Seq<A>, x: A, y: A)
    ensures
        s.push(x).contains(y) <==> s.contains(y) || y == x,
{
    if s.push(x).contains(y) {
        let w = choose|i: int| 0 <= i < s.push(x).len() && s.push(x)[i] == y;
        if w < s.len() {
            assert(s[w] == y);
        }
    }
    if s.contains(y) {
        let w = choose|i: int| 0 <= i < s.len() && s[i] == y;
        assert(s.push(x)[w] == y);
    }
    if y == x {
        assert(s.push(x)[s.len() as int] == y);
    }
}

proof fn lemma_rows_apply_objects(d: DataView, rows: Seq<Seq<Seq<char>>>)
    requires
        forall|i: int, j: int| 0 <= i < j < rows.len() ==> rows[i][1] != rows[j][1],
        forall|i: int| 0 <= i < rows.len() ==> !d.index.objects.contains(rows[i][1]),
    ensures
        rows_apply(d, rows).index.objects == d.index.objects + rows.map_values(
            |row: Seq<Seq<char>>| row[1],
        ),
    decreases rows.len(),
{
    if rows.len() == 0 {
        assert(rows_apply(d, rows).index.objects =~= d.index.objects + rows.map_values(
            |row: Seq<Seq<char>>| row[1],
        ));
    } else {
        let row = rows[0];
        assert(rows[0][1] == row[1]);
        let head = DataView {
            catalog: entries_insert(d.catalog, row[1], rating_centi_of(row[5])),
            index: IndexView {
                objects: crate::index::dedup_insert(d.index.objects, row[1]),
                tags: d.index.tags,
                pairs: d.index.pairs,
            },
        };
        assert(head.index.objects == d.index.objects.push(row[1]));
        lemma_tags_fold_catalog(head, row[1], spec_split(row[2]));
        let d1 = row_apply(d, row);
        assert(d1.index.objects == d.index.objects.push(row[1]));
        assert(forall|i: int| 0 <= i < rows.skip(1).len() ==> rows.skip(1)[i] == rows[i + 1]);
        assert forall|i: int| 0 <= i < rows.skip(1).len() implies !d1.index.objects.contains(
            rows.skip(1)[i][1],
        ) by {
            lemma_push_contains(d.index.objects, row[1], rows[i + 1][1]);
        }
        lemma_rows_apply_objects(d1, rows.skip(1));
        assert(rows_apply(d, rows).index.objects =~= d.index.objects + rows.map_values(
            |row: Seq<Seq<char>>| row[1],
        ));
    }
}

/// After one full load pass over records with pairwise distinct
/// identifiers, the registered objects are exactly the records'
/// identifiers, in record order; with the catalog law, every identifier
/// the engine is fed has its catalog entry, at the same position.
pub proof fn lemma_load_pass_objects(rows: Seq<Seq<Seq<char>>>)
    requires
        rows_wf(rows),
        forall|i: int, j: int| 0 <= i < j < rows.len() ==> rows[i][1] != rows[j][1],
    ensures
        rows_apply(empty_data(), rows).index.objects == rows.map_values(
            |row: Seq<Seq<char>>| row[1],
        ),
{
    lemma_rows_apply_objects(empty_data(), rows);
    assert(empty_data().index.objects + rows.map_values(|row: Seq<Seq<char>>| row[1]) =~= rows
        .map_values(|row: Seq<Seq<char>>| row[1]));
}

/// No registered tag, standing alone or inside an association, is empty.
pub open spec fn tags_nonempty(d: DataView) -> bool {
    (forall|t: Seq<char>| #[trigger] d.index.tags.contains(t) ==> t.len() > 0) && (forall|
        p: (Seq<char>, Seq<char>),
    | #[trigger] d.index.pairs.contains(p) ==> p.1.len() > 0)
}

proof fn lemma_tags_fold_nonempty(d: DataView, id: Seq<char>, cats: Seq<Seq<char>>)
    requires
        tags_nonempty(d),
    ensures
        tags_nonempty(tags_fold(d, id, cats)),
    decreases cats.len(),
{
    if cats.len() > 0 {
        let t = trim_of(cats[0]);
        let d1 = tag_step(d, id, cats[0]);
        if t.len() > 0 {
            assert forall|x: Seq<char>| #[trigger] d1.index.tags.contains(x) implies x.len()
                > 0 by {
                if !d.index.tags.contains(t) {
                    lemma_push_contains(d.index.tags, t, x);
                }
            }
            assert forall|p: (Seq<char>, Seq<char>)| #[trigger]
            d1.index.pairs.contains(p) implies p.1.len() > 0 by {
                if !d.index.pairs.contains((id, t)) {
                    lemma_push_contains(d.index.pairs, (id, t), p);
                }
            }
        }
        lemma_tags_fold_nonempty(d1, id, cats.skip(1));
    }
}

proof fn lemma_rows_apply_nonempty(d: DataView, rows: Seq<Seq<Seq<char>>>)
    requires
        tags_nonempty(d),
    ensures
        tags_nonempty(rows_apply(d, rows)),
    decreases rows.len(),
{
    if rows.len() > 0 {
        let row = rows[0];
        let head = DataView {
            catalog: entries_insert(d.catalog, row[1], rating_centi_of(row[5])),
            index: IndexView {
                objects: crate::index::dedup_insert(d.index.objects, row[1]),
                tags: d.index.tags,
                pairs: d.index.pairs,
            },
        };
        assert(tags_nonempty(head));
        lemma_tags_fold_nonempty(head, row[1], spec_split(row[2]));
        lemma_rows_apply_nonempty(row_apply(d, row), rows.skip(1));
    }
}

/// A load pass registers no empty tag: every category is trimmed before
/// use and one that trims to nothing is dropped.
pub proof fn lemma_load_pass_no_empty_tags(rows: Seq<Seq<Seq<char>>>)
    ensures
        tags_nonempty(rows_apply(empty_data(), rows)),
{
    assert(tags_nonempty(empty_data()));
    lemma_rows_apply_nonempty(empty_data(), rows);
}

} // verus!
