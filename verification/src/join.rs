//! The semi-join filter: keeps the probe rows whose join key occurs on the
//! build side, comparing keys by their canonical text.

use crate::schema::{is_first_named, lacks_column, ordinal_of, rows_fit, Schema, SchemaError};
use crate::text::{canonical_text, print_value};
use crate::value::{column_cells, rows_reach, rows_view, Row, Value, ValueView};
use vstd::hash_set::StringHashSet;
use vstd::prelude::*;

verus! {

/// The canonical texts of `cells`, as a set: equal texts collapse.
pub open spec fn key_texts(cells: Seq<ValueView>) -> Set<Seq<char>> {
    Set::new(
        |text: Seq<char>|
            exists|i: int| 0 <= i < cells.len() && text == canonical_text(#[trigger] cells[i]),
    )
}

/// The predicate "the cell of this row at `ordinal` is one of `keys`".
pub open spec fn is_retained(keys: Set<Seq<char>>, ordinal: int) -> spec_fn(
    Seq<ValueView>,
) -> bool {
    |row: Seq<ValueView>| keys.contains(canonical_text(row[ordinal]))
}

/// The join keys of the build side.
pub struct KeySet {
    texts: StringHashSet,
}

impl View for KeySet {
    type V = Set<Seq<char>>;

    closed spec fn view(&self) -> Set<Seq<char>> {
        self.texts@
    }
}

impl KeySet {
    /// A set with no key.
    pub fn new() -> (keys: KeySet)
        ensures
            keys@ == Set::<Seq<char>>::empty(),
    {
        KeySet { texts: StringHashSet::new() }
    }

    /// Adds the key of `value`. Returns whether the key was new.
    pub fn insert(&mut self, value: &Value) -> (added: bool)
        ensures
            final(self)@ == old(self)@.insert(canonical_text(value@)),
            added == !old(self)@.contains(canonical_text(value@)),
    {
        self.texts.insert(print_value(value))
    }

    /// Whether the key of `value` is in the set.
    pub fn contains(&self, value: &Value) -> (found: bool)
        ensures
            found == self@.contains(canonical_text(value@)),
    {
        let text = print_value(value);
        self.texts.contains(text.as_str())
    }
}

/// Collects the join keys of the build side.
///
/// `build_rows` are the rows of the build file restricted to the join column,
/// so the key of a row is its first value.
pub fn build_key_set(build_rows: &Vec<Row>) -> (keys: KeySet)
    requires
        rows_reach(build_rows@, 0),
    ensures
        keys@ == key_texts(column_cells(rows_view(build_rows@), 0)),
{
    let ghost cells = column_cells(rows_view(build_rows@), 0);
    let mut keys = KeySet::new();
    let mut i: usize = 0;
    while i < build_rows.len()
        invariant
            i <= build_rows.len(),
            rows_reach(build_rows@, 0),
            cells == column_cells(rows_view(build_rows@), 0),
            keys@ =~= key_texts(cells.take(i as int)),
        decreases build_rows.len() - i,
    {
        keys.insert(build_rows[i].get(0));
        proof {
            let before = cells.take(i as int);
            let after = cells.take(i + 1);
            assert(after == before.push(cells[i as int]));
            assert forall|text: Seq<char>| key_texts(after).contains(text) implies key_texts(
                before,
            ).insert(canonical_text(cells[i as int])).contains(text) by {
                let k = choose|k: int|
                    0 <= k < after.len() && text == canonical_text(#[trigger] after[k]);
                if k < i {
                    assert(before[k] == after[k]);
                }
            }
            assert forall|text: Seq<char>|
                key_texts(before).insert(canonical_text(cells[i as int])).contains(
                    text,
                ) implies key_texts(after).contains(text) by {
                if text == canonical_text(cells[i as int]) {
                    assert(after[i as int] == cells[i as int]);
                } else {
                    let k = choose|k: int|
                        0 <= k < before.len() && text == canonical_text(#[trigger] before[k]);
                    assert(after[k] == before[k]);
                }
            }
        }
        i += 1;
    }
    assert(cells.take(build_rows.len() as int) == cells);
    keys
}

/// What a semi-join yields.
#[derive(Debug, PartialEq, Eq)]
pub struct SemiJoin {
    /// The retained probe rows, in probe order.
    pub rows: Vec<Row>,
    /// How many probe rows were dropped.
    pub reduction: usize,
}

/// Keeps the rows of `probe_rows` whose cell at `ordinal` is one of `keys`.
///
/// Retained rows keep every column and their order. A missing cell is a key
/// like any other: it matches where the build side held a missing cell too.
pub fn probe(probe_rows: &Vec<Row>, ordinal: usize, keys: &KeySet) -> (joined: SemiJoin)
    requires
        rows_reach(probe_rows@, ordinal as int),
    ensures
        rows_view(joined.rows@) == rows_view(probe_rows@).filter(
            is_retained(keys@, ordinal as int),
        ),
        joined.rows@.len() + joined.reduction == probe_rows@.len(),
{
    let ghost table = rows_view(probe_rows@);
    let ghost retained = is_retained(keys@, ordinal as int);
    let mut rows: Vec<Row> = Vec::new();
    let mut reduction: usize = 0;
    let mut i: usize = 0;
    while i < probe_rows.len()
        invariant
            i <= probe_rows.len(),
            rows_reach(probe_rows@, ordinal as int),
            table == rows_view(probe_rows@),
            retained == is_retained(keys@, ordinal as int),
            rows_view(rows@) =~= table.take(i as int).filter(retained),
            rows@.len() + reduction == i,
        decreases probe_rows.len() - i,
    {
        proof {
            assert(table.take(i + 1) == table.take(i as int).push(table[i as int]));
            table.take(i as int).lemma_filter_push(table[i as int], retained);
        }
        let row = &probe_rows[i];
        if keys.contains(row.get(ordinal)) {
            rows.push(row.clone());
        } else {
            reduction += 1;
        }
        i += 1;
    }
    assert(table.take(probe_rows.len() as int) == table);
    SemiJoin { rows, reduction }
}

/// The semi-join of a probe table against the keys of a build table.
///
/// `probe_column` names the join column of the probe side and is resolved
/// against the whole of `probe_schema`, since retained rows keep every column.
/// `build_rows` are the rows of the build side restricted to its join column.
pub fn semi_join(
    probe_rows: &Vec<Row>,
    probe_schema: &Schema,
    probe_column: &String,
    build_rows: &Vec<Row>,
) -> (joined: Result<SemiJoin, SchemaError>)
    requires
        rows_fit(probe_rows@, probe_schema@),
        rows_reach(build_rows@, 0),
    ensures
        match joined {
            Ok(kept) => {
                &&& is_first_named(
                    probe_schema@,
                    probe_column@,
                    ordinal_of(probe_schema@, probe_column@),
                )
                &&& rows_view(kept.rows@) == rows_view(probe_rows@).filter(
                    is_retained(
                        key_texts(column_cells(rows_view(build_rows@), 0)),
                        ordinal_of(probe_schema@, probe_column@),
                    ),
                )
                &&& kept.rows@.len() + kept.reduction == probe_rows@.len()
            },
            Err(error) => {
                &&& error == SchemaError::ColumnNotFound
                &&& lacks_column(probe_schema@, probe_column@)
            },
        },
{
    let keys = build_key_set(build_rows);
    match probe_schema.resolve_ordinal(probe_column) {
        Ok(ordinal) => Ok(probe(probe_rows, ordinal, &keys)),
        Err(error) => Err(error),
    }
}

/// What a semi-join retains: a row of the probe table stands in the result
/// exactly when its join key is one of the keys, and the result holds nothing
/// but rows of the probe table.
pub proof fn lemma_retained_exactly(
    table: Seq<Seq<ValueView>>,
    keys: Set<Seq<char>>,
    ordinal: int,
)
    ensures
        table.filter(is_retained(keys, ordinal)).len() <= table.len(),
        forall|i: int|
            0 <= i < table.len() ==> (table.filter(is_retained(keys, ordinal)).contains(
                #[trigger] table[i],
            ) <==> keys.contains(canonical_text(table[i][ordinal]))),
        forall|k: int|
            0 <= k < table.filter(is_retained(keys, ordinal)).len() ==> {
                let row = #[trigger] table.filter(is_retained(keys, ordinal))[k];
                &&& table.contains(row)
                &&& keys.contains(canonical_text(row[ordinal]))
            },
{
    let retained = is_retained(keys, ordinal);
    let kept = table.filter(retained);
    table.lemma_filter_len(retained);
    assert forall|i: int| 0 <= i < table.len() implies (kept.contains(#[trigger] table[i])
        <==> keys.contains(canonical_text(table[i][ordinal]))) by {
        if retained(table[i]) {
            table.lemma_filter_contains(retained, i);
        }
        if kept.contains(table[i]) {
            let k = choose|k: int| 0 <= k < kept.len() && kept[k] == table[i];
            table.lemma_filter_pred(retained, k);
        }
    }
    assert forall|k: int| 0 <= k < kept.len() implies {
        let row = #[trigger] kept[k];
        &&& table.contains(row)
        &&& keys.contains(canonical_text(row[ordinal]))
    } by {
        table.lemma_filter_pred(retained, k);
        assert(kept.contains(kept[k]));
        table.lemma_filter_contains_rev(retained, kept[k]);
    }
}

/// The positions of the probe rows that a semi-join retains, ascending.
pub open spec fn retained_positions(
    table: Seq<Seq<ValueView>>,
    keys: Set<Seq<char>>,
    ordinal: int,
) -> Seq<int>
    decreases table.len(),
{
    if table.len() == 0 {
        Seq::empty()
    } else {
        let before = retained_positions(table.drop_last(), keys, ordinal);
        if keys.contains(canonical_text(table.last()[ordinal])) {
            before.push(table.len() - 1)
        } else {
            before
        }
    }
}

/// A semi-join preserves the order of the probe side: its result is the
/// probe rows at the retained positions, and those positions ascend.
pub proof fn lemma_retained_in_order(
    table: Seq<Seq<ValueView>>,
    keys: Set<Seq<char>>,
    ordinal: int,
)
    ensures
        retained_positions(table, keys, ordinal).len() == table.filter(
            is_retained(keys, ordinal),
        ).len(),
        forall|k: int|
            0 <= k < retained_positions(table, keys, ordinal).len() ==> {
                let position = #[trigger] retained_positions(table, keys, ordinal)[k];
                &&& 0 <= position < table.len()
                &&& table.filter(is_retained(keys, ordinal))[k] == table[position]
            },
        forall|j: int, k: int|
            0 <= j < k < retained_positions(table, keys, ordinal).len() ==> retained_positions(
                table,
                keys,
                ordinal,
            )[j] < retained_positions(table, keys, ordinal)[k],
    decreases table.len(),
{
    let retained = is_retained(keys, ordinal);
    if table.len() == 0 {
        table.lemma_filter_len(retained);
    } else {
        let shorter = table.drop_last();
        lemma_retained_in_order(shorter, keys, ordinal);
        assert(table == shorter.push(table.last()));
        shorter.lemma_filter_push(table.last(), retained);
        let positions = retained_positions(table, keys, ordinal);
        let before = retained_positions(shorter, keys, ordinal);
        assert forall|k: int| 0 <= k < positions.len() implies {
            let position = #[trigger] positions[k];
            &&& 0 <= position < table.len()
            &&& table.filter(retained)[k] == table[position]
        } by {
            if k < before.len() {
                assert(positions[k] == before[k]);
                assert(shorter[before[k]] == table[before[k]]);
            }
        }
        assert forall|j: int, k: int| 0 <= j < k < positions.len() implies positions[j]
            < positions[k] by {
            assert(positions[j] == before[j]);
            if k < before.len() {
                assert(positions[k] == before[k]);
            }
        }
    }
}

} // verus!
