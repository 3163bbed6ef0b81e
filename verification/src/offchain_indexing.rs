//! The offchain indexing worker: after each block it forwards the block's
//! table events to the indexer service (drops, then creates, then one batch
//! of data per table, by table name), checkpoints the block on the server,
//! and advances its local cursor.
//!
//! The worker's I/O (local storage, HTTP, the runtime's event list) and the
//! translation of DDL and rows into Arrow IPC are the caller's; this module
//! decides what to send and in which order.

use vstd::prelude::*;

use crate::forwarder::ChainEvent;
use crate::http_client::{checkpoint, create_table, drop_table, put_batches, HttpError, HttpPost};
use crate::proto::TableBatch;
use crate::types::TableIdentifier;
use crate::vecmap::bytes_clone;

verus! {

/// What `String::from_utf8_lossy` makes of `bytes`: their text, with each
/// invalid sequence replaced by U+FFFD.
pub uninterp spec fn utf8_lossy(bytes: Seq<u8>) -> Seq<char>;

/// Decodes bytes as UTF-8, replacing invalid sequences.
///
/// Calls `String::from_utf8_lossy`.  Claims that the result is a function
/// of the bytes alone, and, as its documentation states, that valid UTF-8
/// decodes to its text; what replaces invalid sequences is left unsaid.
#[verifier::external_body]
fn from_utf8_lossy(bytes: &[u8]) -> (r: String)
    ensures
        r@ == utf8_lossy(bytes@),
        vstd::utf8::valid_utf8(bytes@) ==> r@ == vstd::utf8::decode_utf8(bytes@),
{
    String::from_utf8_lossy(bytes).into_owned()
}

/// `"namespace.name"`, each part decoded lossily.
pub open spec fn spec_fq_name(id: (Seq<u8>, Seq<u8>)) -> Seq<char> {
    utf8_lossy(id.0) + seq!['.'] + utf8_lossy(id.1)
}

/// Renders a table identifier as `"namespace.name"`.
pub fn fq_name(ident: &TableIdentifier) -> (r: String)
    ensures
        r@ == spec_fq_name(ident@),
        vstd::utf8::valid_utf8(ident.namespace@) && vstd::utf8::valid_utf8(ident.name@) ==> r@
            == vstd::utf8::decode_utf8(ident.namespace@) + seq!['.'] + vstd::utf8::decode_utf8(
            ident.name@,
        ),
{
    let mut s = from_utf8_lossy(ident.namespace.as_slice());
    let name = from_utf8_lossy(ident.name.as_slice());
    s.append(".");
    s.append(name.as_str());
    proof {
        reveal_strlit(".");
    }
    s
}

// ───────────────────────── byte order of names ─────────────────────────

/// Whether `a` comes before `b` in byte-wise lexicographic order, the order
/// of `String`.
pub open spec fn bytes_lt(a: Seq<u8>, b: Seq<u8>) -> bool
    decreases a.len(),
{
    if a.len() == 0 {
        b.len() > 0
    } else if b.len() == 0 {
        false
    } else if a[0] != b[0] {
        a[0] < b[0]
    } else {
        bytes_lt(a.drop_first(), b.drop_first())
    }
}

/// The bytes of a name.
pub open spec fn name_bytes(s: Seq<char>) -> Seq<u8> {
    vstd::utf8::encode_utf8(s)
}

proof fn lemma_bytes_lt_irreflexive(a: Seq<u8>)
    ensures
        !bytes_lt(a, a),
    decreases a.len(),
{
    if a.len() > 0 {
        lemma_bytes_lt_irreflexive(a.drop_first());
    }
}

proof fn lemma_bytes_lt_trans(a: Seq<u8>, b: Seq<u8>, c: Seq<u8>)
    requires
        bytes_lt(a, b),
        bytes_lt(b, c),
    ensures
        bytes_lt(a, c),
    decreases a.len(),
{
    if a.len() > 0 && b.len() > 0 && c.len() > 0 && a[0] == b[0] && b[0] == c[0] {
        lemma_bytes_lt_trans(a.drop_first(), b.drop_first(), c.drop_first());
    }
}

proof fn lemma_bytes_lt_total(a: Seq<u8>, b: Seq<u8>)
    requires
        !bytes_lt(a, b),
        a != b,
    ensures
        bytes_lt(b, a),
    decreases a.len(),
{
    if a.len() > 0 && b.len() > 0 && a[0] == b[0] {
        if a.drop_first() == b.drop_first() {
            assert(a =~= seq![a[0]] + a.drop_first());
            assert(b =~= seq![b[0]] + b.drop_first());
        }
        lemma_bytes_lt_total(a.drop_first(), b.drop_first());
    } else if a.len() == 0 {
        assert(b.len() == 0 ==> a =~= b);
    }
}

proof fn lemma_name_bytes_injective(a: Seq<char>, b: Seq<char>)
    requires
        name_bytes(a) == name_bytes(b),
    ensures
        a == b,
{
    vstd::utf8::encode_utf8_decode_utf8(a);
    vstd::utf8::encode_utf8_decode_utf8(b);
}

fn bytes_less(a: &[u8], b: &[u8]) -> (r: bool)
    ensures
        r == bytes_lt(a@, b@),
{
    let mut i: usize = 0;
    assert(a@.skip(0) =~= a@);
    assert(b@.skip(0) =~= b@);
    while i < a.len() && i < b.len()
        invariant
            i <= a@.len(),
            i <= b@.len(),
            a@.take(i as int) == b@.take(i as int),
            bytes_lt(a@, b@) == bytes_lt(a@.skip(i as int), b@.skip(i as int)),
        decreases a.len() - i,
    {
        if a[i] != b[i] {
            return a[i] < b[i];
        }
        proof {
            assert(a@.skip(i as int).drop_first() =~= a@.skip(i + 1));
            assert(b@.skip(i as int).drop_first() =~= b@.skip(i + 1));
            assert(a@.take(i + 1) =~= a@.take(i as int).push(a@[i as int]));
            assert(b@.take(i + 1) =~= b@.take(i as int).push(b@[i as int]));
        }
        i += 1;
    }
    i == a.len() && i < b.len()
}

// ───────────────────────── one block's operations ─────────────────────────

/// The value of a block's operations: created tables with their DDL,
/// dropped tables, and the data blobs of each table by name, in name order.
pub struct OpsView {
    pub creates: Seq<((Seq<u8>, Seq<u8>), Seq<u8>)>,
    pub drops: Seq<(Seq<u8>, Seq<u8>)>,
    pub data: Seq<(Seq<char>, Seq<Seq<u8>>)>,
}

/// The operations extracted from one block.
pub struct BlockOps {
    creates: Vec<(TableIdentifier, Vec<u8>)>,
    drops: Vec<TableIdentifier>,
    data: Vec<(String, Vec<Vec<u8>>)>,
}

/// The values of a list of byte strings.
pub open spec fn blobs_view(v: Seq<Vec<u8>>) -> Seq<Seq<u8>> {
    v.map_values(|b: Vec<u8>| b@)
}

/// The names of a data list are strictly increasing in byte order.
pub open spec fn names_sorted(data: Seq<(Seq<char>, Seq<Seq<u8>>)>) -> bool {
    forall|i: int, j: int|
        0 <= i < j < data.len() ==> bytes_lt(
            name_bytes(#[trigger] data[i].0),
            name_bytes(#[trigger] data[j].0),
        )
}

/// The blobs of the table named `name`, by name.
pub open spec fn data_map(data: Seq<(Seq<char>, Seq<Seq<u8>>)>) -> Map<Seq<char>, Seq<Seq<u8>>> {
    Map::new(
        |k: Seq<char>| exists|i: int| 0 <= i < data.len() && data[i].0 == k,
        |k: Seq<char>| data[name_index(data, k)].1,
    )
}

/// The entry named `k`.
pub open spec fn name_index(data: Seq<(Seq<char>, Seq<Seq<u8>>)>, k: Seq<char>) -> int {
    choose|i: int| 0 <= i < data.len() && data[i].0 == k
}

impl BlockOps {
    /// The operations' value.
    pub closed spec fn view(&self) -> OpsView {
        OpsView {
            creates: self.creates@.map_values(|p: (TableIdentifier, Vec<u8>)| (p.0@, p.1@)),
            drops: self.drops@.map_values(|t: TableIdentifier| t@),
            data: self.data@.map_values(
                |p: (String, Vec<Vec<u8>>)| (p.0@, blobs_view(p.1@)),
            ),
        }
    }

    /// The data entries are sorted by name, with no name twice.
    pub closed spec fn wf(&self) -> bool {
        names_sorted(self@.data)
    }

    /// No operations.
    pub fn new() -> (r: Self)
        ensures
            r.wf(),
            r@.creates.len() == 0,
            r@.drops.len() == 0,
            r@.data.len() == 0,
    {
        BlockOps { creates: Vec::new(), drops: Vec::new(), data: Vec::new() }
    }

    /// Whether there is nothing to forward.
    pub fn is_empty(&self) -> (r: bool)
        ensures
            r == (self@.creates.len() == 0 && self@.drops.len() == 0 && self@.data.len() == 0),
    {
        self.creates.len() == 0 && self.drops.len() == 0 && self.data.len() == 0
    }

    /// Records a created table.
    pub fn push_create(&mut self, ident: TableIdentifier, ddl: Vec<u8>)
        requires
            old(self).wf(),
        ensures
            final(self).wf(),
            final(self)@.creates == old(self)@.creates.push((ident@, ddl@)),
            final(self)@.drops == old(self)@.drops,
            final(self)@.data == old(self)@.data,
    {
        let ghost pre = self@;
        let ghost item = (ident@, ddl@);
        self.creates.push((ident, ddl));
        assert(self@.creates =~= pre.creates.push(item));
        assert(self@.drops =~= pre.drops);
        assert(self@.data =~= pre.data);
    }

    /// Records a dropped table.
    pub fn push_drop(&mut self, ident: TableIdentifier)
        requires
            old(self).wf(),
        ensures
            final(self).wf(),
            final(self)@.drops == old(self)@.drops.push(ident@),
            final(self)@.creates == old(self)@.creates,
            final(self)@.data == old(self)@.data,
    {
        let ghost pre = self@;
        let ghost item = ident@;
        self.drops.push(ident);
        assert(self@.drops =~= pre.drops.push(item));
        assert(self@.creates =~= pre.creates);
        assert(self@.data =~= pre.data);
    }

    /// Appends a data blob to the table named `name`, adding the name in
    /// its place in name order if it is new.
    pub fn push_data(&mut self, name: String, blob: Vec<u8>)
        requires
            old(self).wf(),
        ensures
            final(self).wf(),
            final(self)@.creates == old(self)@.creates,
            final(self)@.drops == old(self)@.drops,
            data_map(final(self)@.data) == data_map(old(self)@.data).insert(
                name@,
                if data_map(old(self)@.data).contains_key(name@) {
                    data_map(old(self)@.data)[name@].push(blob@)
                } else {
                    seq![blob@]
                },
            ),
    {
        let ghost pre = self@;
        let ghost d0 = pre.data;
        let nb = name.as_str().as_bytes();
        let mut p: usize = 0;
        while p < self.data.len() && bytes_less(self.data[p].0.as_str().as_bytes(), nb)
            invariant
                p <= self.data@.len(),
                self@ == pre,
                d0 == pre.data,
                nb@ == name_bytes(name@),
                forall|i: int| 0 <= i < p ==> bytes_lt(name_bytes(#[trigger] d0[i].0), nb@),
            decreases self.data.len() - p,
        {
            assert(d0[p as int].0 == self.data@[p as int].0@);
            p += 1;
        }
        assert(self.wf());
        if p < self.data.len() && self.data[p].0 == name {
            // the name is there: append the blob to its list
            assert(d0[p as int].0 == name@);
            let ghost old_blobs = d0[p as int].1;
            let mut entry = self.data.remove(p);
            let ghost bv = blobs_view(entry.1@);
            entry.1.push(blob);
            assert(blobs_view(entry.1@) =~= bv.push(entry.1@.last()@));
            self.data.insert(p, entry);
            proof {
                let d1 = self@.data;
                assert forall|i: int| 0 <= i < d1.len() implies #[trigger] d1[i].0 == d0[i].0 && (i
                    != p ==> d1[i].1 == d0[i].1) by {}
                assert(d1[p as int].1 == old_blobs.push(blob@));
                self.lemma_unique(p as int, name@, d0);
                assert(names_sorted(d1));
                assert(data_map(d1) =~= data_map(d0).insert(name@, old_blobs.push(blob@))) by {
                    assert forall|k: Seq<char>| #[trigger] data_map(d1).contains_key(k) == data_map(
                        d0,
                    ).insert(name@, old_blobs.push(blob@)).contains_key(k) by {
                        if exists|i: int| 0 <= i < d1.len() && d1[i].0 == k {
                            let i = choose|i: int| 0 <= i < d1.len() && d1[i].0 == k;
                            assert(d0[i].0 == k);
                        }
                        if exists|i: int| 0 <= i < d0.len() && d0[i].0 == k {
                            let i = choose|i: int| 0 <= i < d0.len() && d0[i].0 == k;
                            assert(d1[i].0 == k);
                        }
                    }
                    assert forall|k: Seq<char>| #[trigger] data_map(d1).contains_key(k) implies data_map(
                        d1,
                    )[k] == data_map(d0).insert(name@, old_blobs.push(blob@))[k] by {
                        let i1 = choose|i: int| 0 <= i < d1.len() && d1[i].0 == k;
                        lemma_sorted_unique(d1, i1, k);
                        assert(d0[i1].0 == k);
                        lemma_sorted_unique(d0, i1, k);
                    }
                }
                assert(data_map(d0).contains_key(name@));
            }
        } else {
            proof {
                if p < d0.len() {
                    assert(d0[p as int].0 != name@);
                    assert(!bytes_lt(name_bytes(d0[p as int].0), name_bytes(name@)));
                    if name_bytes(d0[p as int].0) == name_bytes(name@) {
                        lemma_name_bytes_injective(d0[p as int].0, name@);
                    }
                    lemma_bytes_lt_total(name_bytes(d0[p as int].0), name_bytes(name@));
                }
            }
            let mut blobs: Vec<Vec<u8>> = Vec::new();
            blobs.push(blob);
            let ghost bv = blobs_view(blobs@);
            assert(bv =~= seq![blobs@[0]@]);
            let ghost nv = name@;
            self.data.insert(p, (name, blobs));
            proof {
                let d1 = self@.data;
                assert(d1 =~= d0.insert(p as int, (nv, bv)));
                assert(names_sorted(d1)) by {
                    assert forall|i: int, j: int| 0 <= i < j < d1.len() implies bytes_lt(
                        name_bytes(#[trigger] d1[i].0),
                        name_bytes(#[trigger] d1[j].0),
                    ) by {
                        if j < p {
                        } else if j == p {
                        } else if i < p {
                            assert(d1[j] == d0[j - 1]);
                            assert(bytes_lt(name_bytes(nv), name_bytes(d0[p as int].0)));
                            if j - 1 > p {
                                assert(bytes_lt(name_bytes(d0[p as int].0), name_bytes(d0[j - 1].0)));
                                lemma_bytes_lt_trans(name_bytes(nv), name_bytes(d0[p as int].0), name_bytes(d0[j - 1].0));
                            }
                            lemma_bytes_lt_trans(name_bytes(d1[i].0), name_bytes(nv), name_bytes(d1[j].0));
                        } else if i == p {
                            assert(d1[j] == d0[j - 1]);
                            if j - 1 > p {
                                assert(bytes_lt(name_bytes(d0[p as int].0), name_bytes(d0[j - 1].0)));
                                lemma_bytes_lt_trans(name_bytes(nv), name_bytes(d0[p as int].0), name_bytes(d0[j - 1].0));
                            }
                        } else {
                            assert(d1[i] == d0[i - 1]);
                            assert(d1[j] == d0[j - 1]);
                        }
                    }
                }
                assert(!data_map(d0).contains_key(nv)) by {
                    if exists|i: int| 0 <= i < d0.len() && d0[i].0 == nv {
                        let i = choose|i: int| 0 <= i < d0.len() && d0[i].0 == nv;
                        if i < p {
                            lemma_bytes_lt_irreflexive(name_bytes(nv));
                        } else {
                            if i > p {
                                assert(bytes_lt(name_bytes(d0[p as int].0), name_bytes(d0[i].0)));
                                lemma_bytes_lt_trans(name_bytes(nv), name_bytes(d0[p as int].0), name_bytes(nv));
                            }
                            lemma_bytes_lt_irreflexive(name_bytes(nv));
                        }
                    }
                }
                assert(data_map(d1) =~= data_map(d0).insert(nv, seq![blob@])) by {
                    assert forall|k: Seq<char>| #[trigger] data_map(d1).contains_key(k) == data_map(
                        d0,
                    ).insert(nv, seq![blob@]).contains_key(k) by {
                        if exists|i: int| 0 <= i < d1.len() && d1[i].0 == k {
                            let i = choose|i: int| 0 <= i < d1.len() && d1[i].0 == k;
                            if i < p {
                                assert(d0[i].0 == k);
                            } else if i > p {
                                assert(d0[i - 1].0 == k);
                            }
                        }
                        if exists|i: int| 0 <= i < d0.len() && d0[i].0 == k {
                            let i = choose|i: int| 0 <= i < d0.len() && d0[i].0 == k;
                            if i < p {
                                assert(d1[i].0 == k);
                            } else {
                                assert(d1[i + 1].0 == k);
                            }
                        }
                        if k == nv {
                            assert(d1[p as int].0 == k);
                        }
                    }
                    assert forall|k: Seq<char>| #[trigger] data_map(d1).contains_key(k) implies data_map(
                        d1,
                    )[k] == data_map(d0).insert(nv, seq![blob@])[k] by {
                        let i1 = choose|i: int| 0 <= i < d1.len() && d1[i].0 == k;
                        lemma_sorted_unique(d1, i1, k);
                        if i1 < p {
                            assert(d0[i1].0 == k);
                            lemma_sorted_unique(d0, i1, k);
                        } else if i1 > p {
                            assert(d0[i1 - 1].0 == k);
                            lemma_sorted_unique(d0, i1 - 1, k);
                        }
                    }
                }
            }
        }
    }

    proof fn lemma_unique(&self, p: int, name: Seq<char>, d0: Seq<(Seq<char>, Seq<Seq<u8>>)>)
        requires
            names_sorted(d0),
            0 <= p < d0.len(),
            d0[p].0 == name,
        ensures
            forall|i: int| 0 <= i < d0.len() && d0[i].0 == name ==> i == p,
    {
        assert forall|i: int| 0 <= i < d0.len() && d0[i].0 == name implies i == p by {
            if i < p {
                assert(bytes_lt(name_bytes(d0[i].0), name_bytes(d0[p].0)));
                lemma_bytes_lt_irreflexive(name_bytes(name));
            } else if i > p {
                assert(bytes_lt(name_bytes(d0[p].0), name_bytes(d0[i].0)));
                lemma_bytes_lt_irreflexive(name_bytes(name));
            }
        }
    }
}

/// In a sorted list, the entry named `k` is the one at `i`, and the map
/// gives its blobs.
proof fn lemma_sorted_unique(d: Seq<(Seq<char>, Seq<Seq<u8>>)>, i: int, k: Seq<char>)
    requires
        names_sorted(d),
        0 <= i < d.len(),
        d[i].0 == k,
    ensures
        data_map(d).contains_key(k),
        data_map(d)[k] == d[i].1,
{
    assert(data_map(d).contains_key(k));
    let j = name_index(d, k);
    assert(0 <= j < d.len() && d[j].0 == k);
    assert(data_map(d)[k] == d[j].1);
    if j < i {
        assert(bytes_lt(name_bytes(d[j].0), name_bytes(d[i].0)));
        lemma_bytes_lt_irreflexive(name_bytes(k));
    } else if j > i {
        assert(bytes_lt(name_bytes(d[i].0), name_bytes(d[j].0)));
        lemma_bytes_lt_irreflexive(name_bytes(k));
    }
}

// ───────────────────────── extracting a block's events ─────────────────────────

/// What a block's events amount to: created tables, dropped tables, and
/// each table's data blobs by name.
pub struct OpsSummary {
    pub creates: Seq<((Seq<u8>, Seq<u8>), Seq<u8>)>,
    pub drops: Seq<(Seq<u8>, Seq<u8>)>,
    pub data: Map<Seq<char>, Seq<Seq<u8>>>,
}

/// `m` with `blob` appended to the blobs of `name`.
pub open spec fn add_blob(m: Map<Seq<char>, Seq<Seq<u8>>>, name: Seq<char>, blob: Seq<u8>) -> Map<
    Seq<char>,
    Seq<Seq<u8>>,
> {
    m.insert(
        name,
        if m.contains_key(name) {
            m[name].push(blob)
        } else {
            seq![blob]
        },
    )
}

/// The created tables a list of tables and statements stands for.
pub open spec fn creates_of(list: Seq<(TableIdentifier, Vec<u8>)>) -> Seq<
    ((Seq<u8>, Seq<u8>), Seq<u8>),
> {
    list.map_values(|p: (TableIdentifier, Vec<u8>)| (p.0@, p.1@))
}

/// The summary after one more event.
pub open spec fn apply_event(o: OpsSummary, e: ChainEvent) -> OpsSummary {
    match e {
        ChainEvent::SchemaUpdated(list) => OpsSummary { creates: o.creates + creates_of(list@), ..o },
        ChainEvent::TablesCreatedWithCommitments(list) => OpsSummary {
            creates: o.creates + creates_of(list@),
            ..o
        },
        ChainEvent::TableDropped(t) => OpsSummary { drops: o.drops.push(t@), ..o },
        ChainEvent::QuorumReached { table, data } => OpsSummary {
            data: add_blob(o.data, spec_fq_name(table@), data@),
            ..o
        },
        ChainEvent::Other => o,
    }
}

/// The summary of a block's events, in deposit order.
pub open spec fn summary_of(events: Seq<ChainEvent>) -> OpsSummary
    decreases events.len(),
{
    if events.len() == 0 {
        OpsSummary { creates: Seq::empty(), drops: Seq::empty(), data: Map::empty() }
    } else {
        apply_event(summary_of(events.drop_last()), events.last())
    }
}

/// Whether `ops` holds what `o` says.
pub open spec fn ops_match(ops: OpsView, o: OpsSummary) -> bool {
    ops.creates == o.creates && ops.drops == o.drops && data_map(ops.data) == o.data
}

impl BlockOps {
    /// Records the tables of one event.
    fn push_creates(&mut self, list: &Vec<(TableIdentifier, Vec<u8>)>)
        requires
            old(self).wf(),
        ensures
            final(self).wf(),
            final(self)@.creates == old(self)@.creates + creates_of(list@),
            final(self)@.drops == old(self)@.drops,
            final(self)@.data == old(self)@.data,
    {
        let ghost start = self@;
        let mut j: usize = 0;
        while j < list.len()
            invariant
                self.wf(),
                j <= list@.len(),
                self@.creates == start.creates + creates_of(list@.take(j as int)),
                self@.drops == start.drops,
                self@.data == start.data,
            decreases list.len() - j,
        {
            let (t, d) = &list[j];
            self.push_create(t.duplicate(), bytes_clone(d));
            proof {
                assert(creates_of(list@.take(j + 1)) =~= creates_of(list@.take(j as int)).push(
                    (t@, d@),
                ));
                assert(start.creates + creates_of(list@.take(j + 1)) =~= (start.creates
                    + creates_of(list@.take(j as int))).push((t@, d@)));
            }
            j += 1;
        }
        assert(list@.take(list@.len() as int) =~= list@);
    }

    /// Records what one event contributes.
    pub fn push_event(&mut self, e: &ChainEvent)
        requires
            old(self).wf(),
        ensures
            final(self).wf(),
            forall|o: OpsSummary| ops_match(old(self)@, o) ==> ops_match(
                final(self)@,
                #[trigger] apply_event(o, *e),
            ),
    {
        match e {
            ChainEvent::SchemaUpdated(list) => self.push_creates(list),
            ChainEvent::TablesCreatedWithCommitments(list) => self.push_creates(list),
            ChainEvent::TableDropped(t) => self.push_drop(t.duplicate()),
            ChainEvent::QuorumReached { table, data } => {
                let name = fq_name(table);
                self.push_data(name, bytes_clone(data));
            },
            ChainEvent::Other => {},
        }
    }
}

/// Extracts the operations of a block's events, in deposit order.
pub fn extract_events(events: &Vec<ChainEvent>) -> (r: BlockOps)
    ensures
        r.wf(),
        ops_match(r@, summary_of(events@)),
{
    let mut ops = BlockOps::new();
    proof {
        assert(data_map(ops@.data) =~= Map::<Seq<char>, Seq<Seq<u8>>>::empty());
        assert(events@.take(0) =~= Seq::<ChainEvent>::empty());
        assert(ops@.creates =~= Seq::<((Seq<u8>, Seq<u8>), Seq<u8>)>::empty());
        assert(ops@.drops =~= Seq::<(Seq<u8>, Seq<u8>)>::empty());
    }
    let mut i: usize = 0;
    while i < events.len()
        invariant
            ops.wf(),
            i <= events@.len(),
            ops_match(ops@, summary_of(events@.take(i as int))),
        decreases events.len() - i,
    {
        let ghost o = summary_of(events@.take(i as int));
        ops.push_event(&events[i]);
        proof {
            assert(events@.take(i + 1).drop_last() =~= events@.take(i as int));
            assert(events@.take(i + 1).last() == events@[i as int]);
            assert(ops_match(ops@, apply_event(o, events@[i as int])));
        }
        i += 1;
    }
    assert(events@.take(events@.len() as int) =~= events@);
    ops
}

// ───────────────────────── forwarding a block ─────────────────────────

/// Why a block's operations could not be forwarded.
#[derive(Debug, Clone, Copy, PartialEq, Eq, Structural)]
pub enum OpsError {
    /// A created table's DDL could not be turned into an Arrow schema.
    DdlTranslationFailed,
    /// A table's data could not be turned into Arrow IPC.
    ArrowIpcTranslationFailed,
}

/// The key column sent with every created table, for replay safety.
pub open spec fn dedup_key_column() -> Seq<char> {
    "META_ROW_NUMBER"@
}

/// A request's URL and body.
pub open spec fn post_view(p: HttpPost) -> (Seq<char>, Seq<u8>) {
    (p.url@, p.body@)
}

/// The URLs and bodies of a list of requests.
pub open spec fn posts_view(v: Seq<HttpPost>) -> Seq<(Seq<char>, Seq<u8>)> {
    v.map_values(|p: HttpPost| post_view(p))
}

/// The request dropping a table.
pub open spec fn drop_post(url: Seq<char>, seq: u64, t: (Seq<u8>, Seq<u8>)) -> (Seq<char>, Seq<u8>) {
    (url + "/v1/drop_table"@, crate::proto::drop_table_request(seq, spec_fq_name(t)))
}

/// The request creating a table with its translated schema.
pub open spec fn create_post(url: Seq<char>, seq: u64, t: (Seq<u8>, Seq<u8>), schema: Seq<u8>) -> (
    Seq<char>,
    Seq<u8>,
) {
    (
        url + "/v1/create_table"@,
        crate::proto::create_table_request(seq, spec_fq_name(t), schema, dedup_key_column()),
    )
}

/// The index of the first `None`, or the length when there is none.
pub open spec fn first_none(v: Seq<Option<Seq<u8>>>) -> nat
    decreases v.len(),
{
    if v.len() == 0 {
        0
    } else if v[0] is None {
        0
    } else {
        1 + first_none(v.drop_first())
    }
}

/// The values of a list of optional byte strings.
pub open spec fn opts_view(v: Seq<Option<Vec<u8>>>) -> Seq<Option<Seq<u8>>> {
    v.map_values(|o: Option<Vec<u8>>| match o {
        Some(b) => Some(b@),
        None => None,
    })
}

/// What forwarding a block's operations posts, in order, and whether a
/// translation stopped it: every drop; then every create up to the first
/// whose schema did not translate; then, if there is data and all of it
/// translated, one batch of every table's data, in name order.
/// `schemas` holds each create's translated schema and `ipcs` each data
/// entry's translated rows, `None` where translation failed.
pub open spec fn forward_outcome(
    url: Seq<char>,
    seq: u64,
    ops: OpsView,
    schemas: Seq<Option<Seq<u8>>>,
    ipcs: Seq<Option<Seq<u8>>>,
) -> (Seq<(Seq<char>, Seq<u8>)>, Option<OpsError>) {
    let drops = ops.drops.map_values(|t: (Seq<u8>, Seq<u8>)| drop_post(url, seq, t));
    let k = first_none(schemas);
    let creates = Seq::new(k, |i: int| create_post(url, seq, ops.creates[i].0, schemas[i]->0));
    if k < schemas.len() {
        (drops + creates, Some(OpsError::DdlTranslationFailed))
    } else if ops.data.len() == 0 {
        (drops + creates, None)
    } else if first_none(ipcs) < ipcs.len() {
        (drops + creates, Some(OpsError::ArrowIpcTranslationFailed))
    } else {
        let batches = Seq::new(ops.data.len(), |i: int| (ops.data[i].0, ipcs[i]->0));
        (
            drops + creates + seq![
                (url + "/v1/put_batches"@, crate::proto::put_batches_request(seq, batches)),
            ],
            None,
        )
    }
}

proof fn lemma_first_none_step(v: Seq<Option<Seq<u8>>>, i: int)
    requires
        0 <= i < v.len(),
        forall|j: int| 0 <= j < i ==> v[j] is Some,
    ensures
        v[i] is None ==> first_none(v) == i,
        v[i] is Some ==> (forall|j: int| 0 <= j < i + 1 ==> v[j] is Some),
    decreases i,
{
    if i > 0 {
        assert forall|j: int| 0 <= j < i - 1 implies v.drop_first()[j] is Some by {
            assert(v.drop_first()[j] == v[j + 1]);
        }
        lemma_first_none_step(v.drop_first(), i - 1);
    }
}

proof fn lemma_first_none_all(v: Seq<Option<Seq<u8>>>)
    requires
        forall|j: int| 0 <= j < v.len() ==> v[j] is Some,
    ensures
        first_none(v) == v.len(),
    decreases v.len(),
{
    if v.len() > 0 {
        assert forall|j: int| 0 <= j < v.len() - 1 implies v.drop_first()[j] is Some by {
            assert(v.drop_first()[j] == v[j + 1]);
        }
        lemma_first_none_all(v.drop_first());
    }
}

/// The requests forwarding a block's operations, and the translation that
/// stopped them, if one did.
pub struct ForwardPlan {
    /// The requests to post, in order; a failed post stops the rest.
    pub posts: Vec<HttpPost>,
    /// The translation that failed after the last request, if any.
    pub error: Option<OpsError>,
}

fn opt_clone(o: &Option<Vec<u8>>) -> (r: Option<Vec<u8>>)
    ensures
        r matches Some(b) ==> o matches Some(c) && b@ == c@,
        r is None <==> o is None,
{
    match o {
        Some(b) => Some(bytes_clone(b)),
        None => None,
    }
}

/// Plans forwarding a block's operations to the indexer at `url` under
/// sequence number `block_number`.
pub fn forward_ops(
    url: &str,
    block_number: u64,
    ops: &BlockOps,
    schemas: &Vec<Option<Vec<u8>>>,
    ipcs: &Vec<Option<Vec<u8>>>,
) -> (r: ForwardPlan)
    requires
        ops.wf(),
        schemas@.len() == ops@.creates.len(),
        ipcs@.len() == ops@.data.len(),
    ensures
        (posts_view(r.posts@), r.error) == forward_outcome(
            url@,
            block_number,
            ops@,
            opts_view(schemas@),
            opts_view(ipcs@),
        ),
{
    let ghost ov = ops@;
    let ghost sv = opts_view(schemas@);
    let ghost iv = opts_view(ipcs@);
    let mut posts: Vec<HttpPost> = Vec::new();
    // drops first
    let mut i: usize = 0;
    while i < ops.drops.len()
        invariant
            ov == ops@,
            i <= ops.drops@.len(),
            ops.drops@.len() == ov.drops.len(),
            posts_view(posts@) == ov.drops.take(i as int).map_values(
                |t: (Seq<u8>, Seq<u8>)| drop_post(url@, block_number, t),
            ),
        decreases ops.drops.len() - i,
    {
        let ghost prev = posts@;
        assert(ov.drops[i as int] == ops.drops@[i as int]@);
        posts.push(drop_table(url, block_number, fq_name(&ops.drops[i])));
        proof {
            assert(posts_view(posts@) =~= posts_view(prev).push(post_view(posts@.last())));
            assert(ov.drops.take(i + 1) =~= ov.drops.take(i as int).push(ov.drops[i as int]));
        }
        i += 1;
    }
    assert(ov.drops.take(ov.drops.len() as int) =~= ov.drops);
    let ghost drops = posts_view(posts@);
    // then creates, until a schema fails to translate
    let mut k: usize = 0;
    while k < ops.creates.len()
        invariant
            ov == ops@,
            sv == opts_view(schemas@),
            schemas@.len() == ops.creates@.len(),
            ops.creates@.len() == ov.creates.len(),
            k <= ops.creates@.len(),
            drops == ov.drops.map_values(|t: (Seq<u8>, Seq<u8>)| drop_post(url@, block_number, t)),
            forall|j: int| 0 <= j < k ==> sv[j] is Some,
            posts_view(posts@) == drops + Seq::new(
                k as nat,
                |j: int| create_post(url@, block_number, ov.creates[j].0, sv[j]->0),
            ),
        decreases ops.creates.len() - k,
    {
        proof {
            lemma_first_none_step(sv, k as int);
        }
        match opt_clone(&schemas[k]) {
            None => {
                proof {
                    assert(sv[k as int] is None);
                }
                return ForwardPlan { posts, error: Some(OpsError::DdlTranslationFailed) };
            },
            Some(schema) => {
                let ghost prev = posts@;
                assert(ov.creates[k as int].0 == ops.creates@[k as int].0@);
                assert(schema@ == sv[k as int]->0);
                let key = "META_ROW_NUMBER".to_owned();
                posts.push(
                    create_table(url, block_number, fq_name(&ops.creates[k].0), schema, key),
                );
                proof {
                    assert(posts_view(posts@) =~= posts_view(prev).push(post_view(posts@.last())));
                    assert(Seq::new(
                        (k + 1) as nat,
                        |j: int| create_post(url@, block_number, ov.creates[j].0, sv[j]->0),
                    ) =~= Seq::new(
                        k as nat,
                        |j: int| create_post(url@, block_number, ov.creates[j].0, sv[j]->0),
                    ).push(create_post(url@, block_number, ov.creates[k as int].0, sv[k as int]->0)));
                }
            },
        }
        k += 1;
    }
    proof {
        lemma_first_none_all(sv);
    }
    let ghost base = posts_view(posts@);
    if ops.data.len() == 0 {
        return ForwardPlan { posts, error: None };
    }
    // one batch with every table's data
    let mut batches: Vec<TableBatch> = Vec::new();
    let mut d: usize = 0;
    while d < ops.data.len()
        invariant
            ov == ops@,
            iv == opts_view(ipcs@),
            ipcs@.len() == ops.data@.len(),
            ops.data@.len() == ov.data.len(),
            d <= ops.data@.len(),
            ov.data.len() > 0,
            sv == opts_view(schemas@),
            sv.len() == ov.creates.len(),
            first_none(sv) == sv.len(),
            posts_view(posts@) == base,
            base == ov.drops.map_values(|t: (Seq<u8>, Seq<u8>)| drop_post(url@, block_number, t))
                + Seq::new(
                first_none(sv),
                |j: int| create_post(url@, block_number, ov.creates[j].0, sv[j]->0),
            ),
            forall|j: int| 0 <= j < d ==> iv[j] is Some,
            crate::proto::batches_view(batches@) == Seq::new(
                d as nat,
                |j: int| (ov.data[j].0, iv[j]->0),
            ),
        decreases ops.data.len() - d,
    {
        proof {
            lemma_first_none_step(iv, d as int);
        }
        match opt_clone(&ipcs[d]) {
            None => {
                proof {
                    assert(iv[d as int] is None);
                }
                return ForwardPlan { posts, error: Some(OpsError::ArrowIpcTranslationFailed) };
            },
            Some(ipc) => {
                let ghost prev = batches@;
                assert(ov.data[d as int].0 == ops.data@[d as int].0@);
                assert(ipc@ == iv[d as int]->0);
                batches.push(TableBatch { table_name: ops.data[d].0.clone(), record_batch: ipc });
                proof {
                    assert(crate::proto::batches_view(batches@) =~= crate::proto::batches_view(
                        prev,
                    ).push((ov.data[d as int].0, iv[d as int]->0)));
                    assert(Seq::new((d + 1) as nat, |j: int| (ov.data[j].0, iv[j]->0)) =~= Seq::new(
                        d as nat,
                        |j: int| (ov.data[j].0, iv[j]->0),
                    ).push((ov.data[d as int].0, iv[d as int]->0)));
                }
            },
        }
        d += 1;
    }
    proof {
        lemma_first_none_all(iv);
    }
    let ghost before = posts@;
    posts.push(put_batches(url, block_number, batches));
    proof {
        assert(posts_view(posts@) =~= posts_view(before).push(post_view(posts@.last())));
    }
    ForwardPlan { posts, error: None }
}

// ───────────────────────── one worker round ─────────────────────────

/// Where a round starts: the last block forwarded, if any, and the cursor
/// to store first, when it came from the server.
#[derive(Debug, Clone, Copy, PartialEq, Eq, Structural)]
pub struct RoundStart {
    /// The last block forwarded, if any.
    pub last_forwarded: Option<u64>,
    /// A cursor to store before going on.
    pub persist_cursor: Option<u64>,
}

/// Resolves the last forwarded block: the local cursor when there is one;
/// otherwise the server's checkpoint (`server_reply`, asked only then),
/// which is stored locally.  `None` when the server could not be asked:
/// the round is skipped.
pub fn resolve_cursor(local_cursor: Option<u64>, server_reply: &Option<Result<Option<u64>, HttpError>>) -> (r:
    Option<RoundStart>)
    requires
        local_cursor is None ==> server_reply is Some,
    ensures
        match local_cursor {
            Some(n) => r == Some(RoundStart { last_forwarded: Some(n), persist_cursor: None }),
            None => match server_reply->0 {
                Ok(Some(s)) => r == Some(RoundStart { last_forwarded: Some(s), persist_cursor: Some(s) }),
                Ok(None) => r == Some(RoundStart { last_forwarded: None, persist_cursor: None }),
                Err(_) => r is None,
            },
        },
{
    match local_cursor {
        Some(n) => Some(RoundStart { last_forwarded: Some(n), persist_cursor: None }),
        None => match server_reply {
            Some(Ok(Some(s))) => Some(RoundStart { last_forwarded: Some(*s), persist_cursor: Some(*s) }),
            Some(Ok(None)) => Some(RoundStart { last_forwarded: None, persist_cursor: None }),
            _ => None,
        },
    }
}

/// Whether the current block still has to be forwarded: it is past the
/// last block forwarded, or none was.
pub fn should_forward(last_forwarded: Option<u64>, current_block: u64) -> (r: bool)
    ensures
        r == match last_forwarded {
            Some(last) => current_block > last,
            None => true,
        },
{
    match last_forwarded {
        Some(last) => current_block > last,
        None => true,
    }
}

/// Plans forwarding the current block: its operations' requests, then,
/// unless a translation failed, the checkpoint of the block.  Once every
/// request succeeded, `finish_round` moves the local cursor to
/// `current_block`.
pub fn plan_block(
    url: &str,
    current_block: u64,
    ops: &BlockOps,
    schemas: &Vec<Option<Vec<u8>>>,
    ipcs: &Vec<Option<Vec<u8>>>,
) -> (r: ForwardPlan)
    requires
        ops.wf(),
        schemas@.len() == ops@.creates.len(),
        ipcs@.len() == ops@.data.len(),
    ensures
        ({
            let (posts, err) = forward_outcome(
                url@,
                current_block,
                ops@,
                opts_view(schemas@),
                opts_view(ipcs@),
            );
            &&& r.error == err
            &&& posts_view(r.posts@) == if err is Some {
                posts
            } else {
                posts.push(
                    (url@ + "/v1/checkpoint"@, crate::proto::checkpoint_request(current_block)),
                )
            }
        }),
{
    let mut plan = forward_ops(url, current_block, ops, schemas, ipcs);
    if plan.error.is_none() {
        let ghost before = plan.posts@;
        plan.posts.push(checkpoint(url, current_block));
        proof {
            assert(posts_view(plan.posts@) =~= posts_view(before).push(post_view(plan.posts@.last())));
        }
    }
    plan
}

/// How a round of forwarding ends: the local cursor afterwards, and
/// whether the round succeeded.
#[derive(Debug, Clone, Copy, PartialEq, Eq)]
pub struct RoundEnd {
    /// The last block forwarded and checkpointed, as stored locally.
    pub cursor: Option<u64>,
    /// Whether every request of the round went through.
    pub ok: bool,
}

/// Whether a plan was carried out: no translation failed, and each of its
/// requests was posted and answered with success, in order.
pub open spec fn plan_done(error: Option<OpsError>, num_posts: nat, replies: Seq<Result<(), HttpError>>) -> bool {
    &&& error is None
    &&& replies.len() == num_posts
    &&& forall|i: int| 0 <= i < replies.len() ==> #[trigger] replies[i] is Ok
}

/// Ends the round that forwarded `current_block` by `plan`, starting from
/// local cursor `cursor`.  `replies` are the outcomes of the plan's
/// requests, posted in order until one fails.  The cursor becomes
/// `current_block` only when the plan was carried out, its last request
/// being the block's checkpoint; otherwise it stays, and the block is
/// forwarded again in a later round.
pub fn finish_round(
    cursor: Option<u64>,
    current_block: u64,
    plan: &ForwardPlan,
    replies: &Vec<Result<(), HttpError>>,
) -> (r: RoundEnd)
    ensures
        if plan_done(plan.error, plan.posts@.len(), replies@) {
            r == (RoundEnd { cursor: Some(current_block), ok: true })
        } else {
            r == (RoundEnd { cursor, ok: false })
        },
{
    if plan.error.is_some() || replies.len() != plan.posts.len() {
        return RoundEnd { cursor, ok: false };
    }
    let mut i: usize = 0;
    while i < replies.len()
        invariant
            i <= replies@.len(),
            forall|j: int| 0 <= j < i ==> #[trigger] replies@[j] is Ok,
        decreases replies.len() - i,
    {
        if replies[i].is_err() {
            return RoundEnd { cursor, ok: false };
        }
        i += 1;
    }
    RoundEnd { cursor: Some(current_block), ok: true }
}

} // verus!
