use vstd::prelude::*;
use crate::overrides::{
    WeightOverride, parse_overrides, text_lines, segments, views, parse_line, all_lines_parse, override_view,
};
use crate::track::{Track, SourceItem, ShuffleError};
use crate::sampler::{choose_weighted_index, pair_total};

verus! {

/// The lowercase form of a string, as `str::to_lowercase` gives it.
pub uninterp spec fn lower_of(s: Seq<char>) -> Seq<char>;

/// Relies on `str::to_lowercase`: its result is a function of the characters
/// alone.
#[verifier::external_body]
fn lowercase(s: &str) -> (r: String)
    ensures
        r@ == lower_of(s@),
{
    s.to_lowercase()
}

/// A track of a weight table with its weight.
pub struct WeightEntry {
    pub track: Track,
    pub weight: u32,
}

/// Every track of a source collection, once, with its weight.
pub struct WeightTable {
    entries: Vec<WeightEntry>,
}

/// A track as its identity and display name.
pub type TrackView = (Seq<char>, Seq<char>);

pub open spec fn entry_track(e: WeightEntry) -> TrackView {
    (e.track.id@, e.track.name@)
}

pub open spec fn is_track(it: SourceItem) -> bool {
    it is Track
}

pub open spec fn source_view(it: SourceItem) -> TrackView {
    match it {
        SourceItem::Track(t) => (t.id@, t.name@),
        SourceItem::Other => (Seq::empty(), Seq::empty()),
    }
}

/// Whether every item of a source collection is a track.
pub open spec fn all_tracks(s: Seq<SourceItem>) -> bool {
    forall|k: int| 0 <= k < s.len() ==> is_track(#[trigger] s[k])
}

pub open spec fn source_views(s: Seq<SourceItem>) -> Seq<TrackView> {
    s.map_values(|it: SourceItem| source_view(it))
}

pub open spec fn has_id(ts: Seq<TrackView>, id: Seq<char>) -> bool {
    exists|k: int| 0 <= k < ts.len() && (#[trigger] ts[k]).0 == id
}

/// The tracks of `ts` in order, each identity kept at its first occurrence.
pub open spec fn unique_by_id(ts: Seq<TrackView>) -> Seq<TrackView>
    decreases ts.len(),
{
    if ts.len() == 0 {
        Seq::empty()
    } else {
        let u = unique_by_id(ts.drop_last());
        if has_id(ts.drop_last(), ts.last().0) {
            u
        } else {
            u.push(ts.last())
        }
    }
}

/// The weight that the overrides `ovs` (already case-folded) give to a track
/// whose case-folded name is `key`: that of the last override with that
/// name, else 1.
pub open spec fn weight_for(key: Seq<char>, ovs: Seq<(Seq<char>, u32)>) -> u32
    decreases ovs.len(),
{
    if ovs.len() == 0 {
        1
    } else if ovs.last().0 == key {
        ovs.last().1
    } else {
        weight_for(key, ovs.drop_last())
    }
}

/// The overrides of a well-formed override text.
pub open spec fn parsed_overrides(text: Seq<char>) -> Seq<(Seq<char>, u32)> {
    text_lines(text).map_values(|l: Seq<char>| parse_line(l)->0)
}

pub open spec fn fold_override(o: (Seq<char>, u32)) -> (Seq<char>, u32) {
    (lower_of(o.0), o.1)
}

/// The overrides of a text with their names case-folded.
pub open spec fn folded_overrides(text: Seq<char>) -> Seq<(Seq<char>, u32)> {
    parsed_overrides(text).map_values(|o: (Seq<char>, u32)| fold_override(o))
}

/// The sum of the weights of the entries.
pub open spec fn total_weight(es: Seq<WeightEntry>) -> nat
    decreases es.len(),
{
    if es.len() == 0 {
        0
    } else {
        total_weight(es.drop_last()) + es.last().weight as nat
    }
}

/// The sum of the weights of the entries with identity `id`.
pub open spec fn id_weight(es: Seq<WeightEntry>, id: Seq<char>) -> nat
    decreases es.len(),
{
    if es.len() == 0 {
        0
    } else {
        id_weight(es.drop_last(), id) + if es.last().track.id@ == id {
            es.last().weight as nat
        } else {
            0
        }
    }
}

pub open spec fn repeat(x: Seq<char>, n: nat) -> Seq<Seq<char>> {
    Seq::new(n, |_i: int| x)
}

/// The weighted playlist: each entry's identity `weight` times, in table
/// order.
pub open spec fn snapshot_of(es: Seq<WeightEntry>) -> Seq<Seq<char>>
    decreases es.len(),
{
    if es.len() == 0 {
        Seq::empty()
    } else {
        snapshot_of(es.drop_last()) + repeat(es.last().track.id@, es.last().weight as nat)
    }
}

pub open spec fn ids_unique(es: Seq<WeightEntry>) -> bool {
    forall|i: int, j: int|
        0 <= i < es.len() && 0 <= j < es.len() && i != j ==> (#[trigger] es[i]).track.id@
            != (#[trigger] es[j]).track.id@
}

proof fn lemma_has_id_push(s: Seq<TrackView>, x: TrackView, id: Seq<char>)
    ensures
        has_id(s.push(x), id) == (has_id(s, id) || x.0 == id),
{
    let t = s.push(x);
    if has_id(t, id) {
        let k = choose|k: int| 0 <= k < t.len() && (#[trigger] t[k]).0 == id;
        if k < s.len() {
            assert(s[k] == t[k]);
        }
    }
    if has_id(s, id) {
        let k = choose|k: int| 0 <= k < s.len() && (#[trigger] s[k]).0 == id;
        assert(s[k] == t[k]);
    }
    if x.0 == id {
        assert(t[s.len() as int] == x);
    }
}

proof fn lemma_has_id_unique(ts: Seq<TrackView>, id: Seq<char>)
    ensures
        has_id(unique_by_id(ts), id) == has_id(ts, id),
    decreases ts.len(),
{
    if ts.len() > 0 {
        let init = ts.drop_last();
        lemma_has_id_unique(init, id);
        assert(ts =~= init.push(ts.last()));
        lemma_has_id_push(init, ts.last(), id);
        lemma_has_id_push(unique_by_id(init), ts.last(), id);
        if has_id(init, ts.last().0) && ts.last().0 == id {
            assert(has_id(init, id));
        }
    }
}

proof fn lemma_unique_ids(ts: Seq<TrackView>)
    ensures
        forall|i: int, j: int|
            0 <= i < unique_by_id(ts).len() && 0 <= j < unique_by_id(ts).len() && i != j
                ==> (#[trigger] unique_by_id(ts)[i]).0 != (#[trigger] unique_by_id(ts)[j]).0,
    decreases ts.len(),
{
    if ts.len() > 0 {
        let init = ts.drop_last();
        lemma_unique_ids(init);
        lemma_has_id_unique(init, ts.last().0);
        let u = unique_by_id(init);
        if !has_id(init, ts.last().0) {
            let v = unique_by_id(ts);
            assert forall|i: int, j: int| 0 <= i < v.len() && 0 <= j < v.len() && i != j implies (
            #[trigger] v[i]).0 != (#[trigger] v[j]).0 by {
                if i < u.len() && j < u.len() {
                    assert(v[i] == u[i] && v[j] == u[j]);
                } else if i < u.len() {
                    assert(v[i] == u[i]);
                } else {
                    assert(v[j] == u[j]);
                }
            }
        }
    }
}

/// Whether the keys (case-folded track names) are given the weights that the
/// case-folded overrides `ovs` assign.
pub open spec fn weights_assigned(
    keys: Seq<Seq<char>>,
    ovs: Seq<(Seq<char>, u32)>,
    ws: Seq<u32>,
) -> bool {
    ws.len() == keys.len() && forall|i: int|
        0 <= i < keys.len() ==> ws[i] == weight_for(#[trigger] keys[i], ovs)
}

/// Gives each track, by its case-folded name in `keys`, the weight of the
/// last override whose case-folded name equals it, or 1 where none does.
pub fn assign_weights(keys: &Vec<String>, overrides: &Vec<WeightOverride>) -> (r: Vec<u32>)
    ensures
        weights_assigned(
            keys@.map_values(|k: String| k@),
            overrides@.map_values(|o: WeightOverride| override_view(o)),
            r@,
        ),
{
    let ghost ks = keys@.map_values(|k: String| k@);
    let ghost ovs = overrides@.map_values(|o: WeightOverride| override_view(o));
    let mut ws: Vec<u32> = Vec::new();
    let mut i: usize = 0;
    while i < keys.len()
        invariant
            i <= keys@.len(),
            ws@.len() == i,
            forall|k: int| 0 <= k < i ==> ws@[k] == 1,
        decreases keys@.len() - i,
    {
        ws.push(1);
        i = i + 1;
    }
    let mut j: usize = 0;
    while j < overrides.len()
        invariant
            j <= overrides@.len(),
            ks == keys@.map_values(|k: String| k@),
            ovs == overrides@.map_values(|o: WeightOverride| override_view(o)),
            ws@.len() == keys@.len(),
            forall|k: int|
                0 <= k < keys@.len() ==> ws@[k] == weight_for(#[trigger] ks[k], ovs.take(j as int)),
        decreases overrides@.len() - j,
    {
        let o = &overrides[j];
        assert(ovs.take(j + 1).drop_last() =~= ovs.take(j as int));
        let mut i: usize = 0;
        while i < keys.len()
            invariant
                j < overrides@.len(),
                o == overrides@[j as int],
                ks == keys@.map_values(|k: String| k@),
                ovs == overrides@.map_values(|o: WeightOverride| override_view(o)),
                ovs.take(j + 1).drop_last() == ovs.take(j as int),
                i <= keys@.len(),
                ws@.len() == keys@.len(),
                forall|k: int|
                    0 <= k < i ==> ws@[k] == weight_for(#[trigger] ks[k], ovs.take(j + 1)),
                forall|k: int|
                    i <= k < keys@.len() ==> ws@[k] == weight_for(
                        #[trigger] ks[k],
                        ovs.take(j as int),
                    ),
            decreases keys@.len() - i,
        {
            if keys[i] == o.name {
                ws.set(i, o.weight);
            }
            i = i + 1;
        }
        j = j + 1;
    }
    assert(ovs.take(overrides@.len() as int) =~= ovs);
    ws
}

impl WeightTable {
    /// The entries of the table, in order.
    pub closed spec fn spec_entries(&self) -> Seq<WeightEntry> {
        self.entries@
    }

    /// Each identity occurs in the table once.
    pub open spec fn wf(&self) -> bool {
        ids_unique(self.spec_entries())
    }

    /// Builds the table of a source collection and an override text of
    /// `name = weight` lines: every track once (at its identity's first
    /// occurrence), with the weight of the last override whose name equals
    /// its display name up to case, else 1. A source item that is no track
    /// fails the build; so does any malformed override line.
    pub fn build(source: &Vec<SourceItem>, override_text: &str) -> (r: Result<
        WeightTable,
        ShuffleError,
    >)
        ensures
            match r {
                Ok(t) => {
                    let u = unique_by_id(source_views(source@));
                    &&& t.wf()
                    &&& override_text@.len() == 0 ==> forall|i: int|
                        0 <= i < t.spec_entries().len() ==> (#[trigger] t.spec_entries()[i]).weight
                            == 1
                    &&& all_tracks(source@)
                    &&& all_lines_parse(text_lines(override_text@))
                    &&& t.spec_entries().len() == u.len()
                    &&& forall|i: int|
                        0 <= i < u.len() ==> entry_track(#[trigger] t.spec_entries()[i]) == u[i]
                            && t.spec_entries()[i].weight == weight_for(
                            lower_of(u[i].1),
                            folded_overrides(override_text@),
                        )
                },
                Err(ShuffleError::Source { index }) => index < source@.len() && !is_track(
                    source@[index as int],
                ) && forall|k: int| 0 <= k < index ==> is_track(#[trigger] source@[k]),
                Err(ShuffleError::Parse { line }) => all_tracks(source@) && line < text_lines(
                    override_text@,
                ).len() && parse_line(text_lines(override_text@)[line as int]) is None
                    && forall|j: int|
                    0 <= j < line ==> (#[trigger] parse_line(text_lines(override_text@)[j])) is Some,
                Err(_) => false,
            },
    {
        let ghost sv = source_views(source@);
        let mut tracks: Vec<Track> = Vec::new();
        let mut i: usize = 0;
        while i < source.len()
            invariant
                i <= source@.len(),
                sv == source_views(source@),
                forall|k: int| 0 <= k < i ==> is_track(#[trigger] source@[k]),
                tracks@.map_values(|t: Track| (t.id@, t.name@)) == unique_by_id(
                    sv.take(i as int),
                ),
            decreases source@.len() - i,
        {
            assert(sv.take(i + 1).drop_last() =~= sv.take(i as int));
            match &source[i] {
                SourceItem::Other => {
                    return Err(ShuffleError::Source { index: i });
                },
                SourceItem::Track(t) => {
                    let ghost tv = tracks@.map_values(|t: Track| (t.id@, t.name@));
                    proof {
                        lemma_has_id_unique(sv.take(i as int), t.id@);
                    }
                    let mut seen = false;
                    let mut k: usize = 0;
                    while k < tracks.len()
                        invariant
                            k <= tracks@.len(),
                            tv == tracks@.map_values(|t: Track| (t.id@, t.name@)),
                            seen == exists|m: int| 0 <= m < k && (#[trigger] tv[m]).0 == t.id@,
                        decreases tracks@.len() - k,
                    {
                        assert(tv[k as int].0 == tracks@[k as int].id@);
                        if tracks[k].id == t.id {
                            seen = true;
                        }
                        k = k + 1;
                    }
                    assert(sv.take(i + 1).last() == (t.id@, t.name@));
                    if !seen {
                        tracks.push(t.duplicate());
                        assert(tracks@.map_values(|t: Track| (t.id@, t.name@)) =~= tv.push(
                            (t.id@, t.name@),
                        ));
                    }
                },
            }
            i = i + 1;
        }
        assert(sv.take(source@.len() as int) =~= sv);
        let overrides = match parse_overrides(override_text) {
            Ok(v) => v,
            Err(e) => {
                return Err(e);
            },
        };
        let ghost u = unique_by_id(sv);
        proof {
            if override_text@.len() == 0 {
                assert(segments(override_text@) =~= seq![Seq::<char>::empty()]);
                assert(text_lines(override_text@).len() == 0);
                assert(folded_overrides(override_text@).len() == 0);
            }
        }
        let mut keys: Vec<String> = Vec::new();
        let mut a: usize = 0;
        while a < tracks.len()
            invariant
                a <= tracks@.len(),
                keys@.len() == a,
                forall|m: int| 0 <= m < a ==> (#[trigger] keys@[m])@ == lower_of(tracks@[m].name@),
            decreases tracks@.len() - a,
        {
            keys.push(lowercase(tracks[a].name.as_str()));
            a = a + 1;
        }
        let mut folded: Vec<WeightOverride> = Vec::new();
        let mut b: usize = 0;
        while b < overrides.len()
            invariant
                b <= overrides@.len(),
                folded@.len() == b,
                forall|m: int|
                    0 <= m < b ==> override_view(#[trigger] folded@[m]) == fold_override(
                        override_view(overrides@[m]),
                    ),
            decreases overrides@.len() - b,
        {
            let name = lowercase(overrides[b].name.as_str());
            folded.push(WeightOverride { name, weight: overrides[b].weight });
            b = b + 1;
        }
        let ws = assign_weights(&keys, &folded);
        let ghost ks = keys@.map_values(|k: String| k@);
        let ghost fo = folded@.map_values(|o: WeightOverride| override_view(o));
        assert(fo =~= folded_overrides(override_text@));
        let mut entries: Vec<WeightEntry> = Vec::new();
        let mut c: usize = 0;
        while c < tracks.len()
            invariant
                c <= tracks@.len(),
                ws@.len() == tracks@.len(),
                keys@.len() == tracks@.len(),
                entries@.len() == c,
                forall|m: int|
                    0 <= m < c ==> entry_track(#[trigger] entries@[m]) == (
                        tracks@[m].id@,
                        tracks@[m].name@,
                    ) && entries@[m].weight == ws@[m],
            decreases tracks@.len() - c,
        {
            entries.push(WeightEntry { track: tracks[c].duplicate(), weight: ws[c] });
            c = c + 1;
        }
        proof {
            lemma_unique_ids(sv);
            let tv = tracks@.map_values(|t: Track| (t.id@, t.name@));
            assert forall|m: int| 0 <= m < u.len() implies entry_track(
                #[trigger] entries@[m],
            ) == u[m] && entries@[m].weight == weight_for(
                lower_of(u[m].1),
                folded_overrides(override_text@),
            ) by {
                assert(tv[m] == u[m]);
                assert(ks[m] == keys@[m]@);
            }
            assert forall|p: int, q: int|
                0 <= p < entries@.len() && 0 <= q < entries@.len() && p != q implies (
                #[trigger] entries@[p]).track.id@ != (#[trigger] entries@[q]).track.id@ by {
                assert(tv[p] == u[p] && tv[q] == u[q]);
            }
        }
        Ok(WeightTable { entries })
    }

    pub fn len(&self) -> (r: usize)
        ensures
            r == self.spec_entries().len(),
    {
        self.entries.len()
    }

    pub fn entries(&self) -> (r: &Vec<WeightEntry>)
        ensures
            r@ == self.spec_entries(),
    {
        &self.entries
    }

    /// The weight of the track with identity `id`, if the table holds it.
    pub fn weight_of(&self, id: &str) -> (r: Option<u32>)
        ensures
            r is None <==> forall|i: int|
                0 <= i < self.spec_entries().len() ==> (#[trigger] self.spec_entries()[i]).track.id@
                    != id@,
            r matches Some(w) ==> exists|i: int|
                0 <= i < self.spec_entries().len() && (#[trigger] self.spec_entries()[i]).track.id@
                    == id@ && self.spec_entries()[i].weight == w,
    {
        let key = String::from_str(id);
        let mut i: usize = 0;
        while i < self.entries.len()
            invariant
                i <= self.entries@.len(),
                key@ == id@,
                forall|m: int| 0 <= m < i ==> (#[trigger] self.entries@[m]).track.id@ != id@,
            decreases self.entries@.len() - i,
        {
            if self.entries[i].track.id == key {
                assert(self.spec_entries()[i as int].track.id@ == id@);
                return Some(self.entries[i].weight);
            }
            i = i + 1;
        }
        None
    }

    /// The sum of the table's weights, where it fits in a `u64`.
    pub fn total(&self) -> (r: Option<u64>)
        ensures
            r is None <==> total_weight(self.spec_entries()) > u64::MAX,
            r matches Some(w) ==> w == total_weight(self.spec_entries()),
    {
        let ghost es = self.entries@;
        let mut sum: u64 = 0;
        let mut i: usize = 0;
        while i < self.entries.len()
            invariant
                i <= es.len(),
                es == self.entries@,
                sum == total_weight(es.take(i as int)),
            decreases es.len() - i,
        {
            assert(es.take(i + 1).drop_last() =~= es.take(i as int));
            let w = self.entries[i].weight as u64;
            if sum > u64::MAX - w {
                proof {
                    lemma_total_prefix_le(es, i + 1);
                }
                return None;
            }
            sum = sum + w;
            i = i + 1;
        }
        assert(es.take(es.len() as int) =~= es);
        Some(sum)
    }

    /// Draws one track at random, with probability proportional to its
    /// weight; a track of weight 0 is never drawn. Fails exactly when the
    /// weights sum to zero, an empty table included. The table is left as it
    /// is.
    pub fn sample(&self) -> (r: Result<Track, ShuffleError>)
        requires
            total_weight(self.spec_entries()) <= u64::MAX,
        ensures
            r is Err <==> total_weight(self.spec_entries()) == 0,
            r matches Err(e) ==> e == ShuffleError::EmptyTable,
            r matches Ok(t) ==> exists|i: int|
                0 <= i < self.spec_entries().len() && entry_track(
                    #[trigger] self.spec_entries()[i],
                ) == (t.id@, t.name@) && self.spec_entries()[i].weight > 0,
    {
        let ghost es = self.entries@;
        let total = match self.total() {
            Some(w) => w,
            None => {
                return Err(ShuffleError::EmptyTable);
            },
        };
        if total == 0 {
            return Err(ShuffleError::EmptyTable);
        }
        let mut pairs: Vec<(usize, u64)> = Vec::new();
        let mut i: usize = 0;
        while i < self.entries.len()
            invariant
                i <= es.len(),
                es == self.entries@,
                total_weight(es) <= u64::MAX,
                pairs@.len() == i,
                pair_total(pairs@) == total_weight(es.take(i as int)),
                forall|k: int|
                    0 <= k < i ==> (#[trigger] pairs@[k]).0 == k && pairs@[k].1 == es[k].weight,
            decreases es.len() - i,
        {
            assert(es.take(i + 1).drop_last() =~= es.take(i as int));
            let ghost before = pairs@;
            pairs.push((i, self.entries[i].weight as u64));
            assert(pairs@.drop_last() =~= before);
            i = i + 1;
        }
        assert(es.take(es.len() as int) =~= es);
        match choose_weighted_index(&pairs) {
            Ok(i) => {
                let ghost k = choose|k: int|
                    0 <= k < pairs@.len() && (#[trigger] pairs@[k]).0 == i && pairs@[k].1 > 0;
                assert(pairs@[k].0 == k);
                Ok(self.entries[i].track.duplicate())
            },
            Err(_) => Err(ShuffleError::EmptyTable),
        }
    }

    /// The weighted playlist of the table: each track's identity repeated
    /// `weight` times (none for weight 0), in table order.
    pub fn snapshot(&self) -> (r: Vec<String>)
        ensures
            views(r@) == snapshot_of(self.spec_entries()),
    {
        let ghost es = self.entries@;
        let mut out: Vec<String> = Vec::new();
        let mut i: usize = 0;
        while i < self.entries.len()
            invariant
                i <= es.len(),
                es == self.entries@,
                views(out@) == snapshot_of(es.take(i as int)),
            decreases es.len() - i,
        {
            let e = &self.entries[i];
            assert(es.take(i + 1).drop_last() =~= es.take(i as int));
            let ghost before = views(out@);
            let mut k: u32 = 0;
            while k < e.weight
                invariant
                    k <= e.weight,
                    views(out@) =~= before + repeat(e.track.id@, k as nat),
                decreases e.weight - k,
            {
                let ghost prev = views(out@);
                out.push(e.track.id.clone());
                assert(views(out@) =~= prev.push(e.track.id@));
                assert(repeat(e.track.id@, (k + 1) as nat) =~= repeat(e.track.id@, k as nat).push(
                    e.track.id@,
                ));
                k = k + 1;
            }
            i = i + 1;
        }
        assert(es.take(es.len() as int) =~= es);
        out
    }
}

proof fn lemma_total_prefix_le(es: Seq<WeightEntry>, i: int)
    requires
        0 <= i <= es.len(),
    ensures
        total_weight(es.take(i)) <= total_weight(es),
    decreases es.len() - i,
{
    if i < es.len() {
        lemma_total_prefix_le(es, i + 1);
        assert(es.take(i + 1).drop_last() =~= es.take(i));
    } else {
        assert(es.take(i) =~= es);
    }
}

proof fn lemma_repeat_count(x: Seq<char>, n: nat, y: Seq<char>)
    ensures
        repeat(x, n).to_multiset().count(y) == if x == y {
            n
        } else {
            0
        },
    decreases n,
{
    broadcast use vstd::multiset::group_multiset_axioms;
    broadcast use vstd::seq_lib::group_to_multiset_ensures;

    if n == 0 {
        assert(repeat(x, n) =~= Seq::<Seq<char>>::empty());
        assert(!repeat(x, n).to_multiset().contains(y));
    } else {
        lemma_repeat_count(x, (n - 1) as nat, y);
        assert(repeat(x, n) =~= repeat(x, (n - 1) as nat).push(x));
        vstd::seq_lib::to_multiset_build(repeat(x, (n - 1) as nat), x);
    }
}

/// In the weighted playlist of any table, an identity occurs as many times
/// as the weights of the table's entries with that identity sum to (its
/// weight, where it is in the table once; none where it is absent), and the
/// playlist is as long as the table's total weight.
pub proof fn lemma_snapshot_count(es: Seq<WeightEntry>, id: Seq<char>)
    ensures
        snapshot_of(es).to_multiset().count(id) == id_weight(es, id),
        snapshot_of(es).len() == total_weight(es),
    decreases es.len(),
{
    broadcast use vstd::multiset::group_multiset_axioms;

    if es.len() > 0 {
        let init = es.drop_last();
        lemma_snapshot_count(init, id);
        lemma_repeat_count(es.last().track.id@, es.last().weight as nat, id);
        vstd::seq_lib::lemma_multiset_commutative(
            snapshot_of(init),
            repeat(es.last().track.id@, es.last().weight as nat),
        );
    } else {
        broadcast use vstd::seq_lib::group_to_multiset_ensures;

        assert(!snapshot_of(es).to_multiset().contains(id));
    }
}

/// In a table whose identities are unique, the weight of an identity is the
/// weight of its one entry.
pub proof fn lemma_id_weight_unique(es: Seq<WeightEntry>, i: int)
    requires
        ids_unique(es),
        0 <= i < es.len(),
    ensures
        id_weight(es, es[i].track.id@) == es[i].weight,
    decreases es.len(),
{
    let init = es.drop_last();
    if i < es.len() - 1 {
        assert(init[i] == es[i]);
        lemma_id_weight_unique(init, i);
        assert(es[es.len() - 1].track.id@ != es[i].track.id@);
    } else {
        lemma_id_weight_absent(init, es[i].track.id@);
    }
}

proof fn lemma_id_weight_absent(es: Seq<WeightEntry>, id: Seq<char>)
    requires
        forall|k: int| 0 <= k < es.len() ==> (#[trigger] es[k]).track.id@ != id,
    ensures
        id_weight(es, id) == 0,
    decreases es.len(),
{
    if es.len() > 0 {
        let init = es.drop_last();
        assert forall|k: int| 0 <= k < init.len() implies (#[trigger] init[k]).track.id@ != id by {
            assert(init[k] == es[k]);
        }
        lemma_id_weight_absent(init, id);
    }
}

/// Two tables that give every identity the same weight have weighted
/// playlists with the same contents, whatever the order of their entries:
/// writing the playlist twice from an unchanged table gives the same
/// multiset of tracks.
pub proof fn lemma_snapshot_same_weights(a: Seq<WeightEntry>, b: Seq<WeightEntry>)
    requires
        forall|id: Seq<char>| id_weight(a, id) == #[trigger] id_weight(b, id),
    ensures
        snapshot_of(a).to_multiset() =~= snapshot_of(b).to_multiset(),
{
    assert forall|id: Seq<char>|
        snapshot_of(a).to_multiset().count(id) == snapshot_of(b).to_multiset().count(id) by {
        lemma_snapshot_count(a, id);
        lemma_snapshot_count(b, id);
        assert(id_weight(a, id) == id_weight(b, id));
    }
}

} // verus!

