//! The widget model: one authoritative state holder whose transitions are
//! driven by a serialized event loop.
//!
//! Two events exist. The periodic load tick advances the request state
//! machine `NotStarted -> Sent -> Done` exactly once, parsing the fetched
//! delimited text into the catalog and the tag index on the tick that
//! finds the response ready; once `Done`, further ticks change nothing.
//! Query input recomputes the recommendation and the typeahead
//! suggestion, and reports whether either actually changed, so the host
//! redraws only when the view would differ.
//!
//! The host performs the outside work: it issues the GET when a tick asks
//! for it, hands the response body back on a later tick, and queries its
//! ranking engine (an opaque collaborator, fed from [`TagIndex`]) for the
//! ranked candidates that accompany each query event.

use crate::catalog::entries_insert;
use crate::catalog::rating_or_zero;
use crate::catalog::spec_suggest;
use crate::catalog::Catalog;
use crate::index::dedup_insert;
use crate::index::pair_insert;
use crate::index::IndexView;
use crate::index::TagIndex;
use crate::rating::rating_centi_of;
use crate::rating::parse_rating;
use crate::text::spec_split;
use crate::text::split_commas;
use crate::text::trim_of;
use crate::text::trim_ws;
use vstd::prelude::*;
use vstd::string::StrSliceExecFns;
use vstd::string::StringExecFns;

verus! {

/// Progress of the one-time dataset load; it only ever moves forward.
#[derive(PartialEq, Eq, Structural, Clone, Copy, Debug)]
pub enum LoadState {
    NotStarted,
    Sent,
    Done,
}

/// The host's inbox vocabulary: a user keystroke carrying the raw query,
/// or the periodic load tick. Messages are handled one at a time, in
/// arrival order, by [`Model::query_input`] and [`Model::load_tick`].
#[derive(Debug)]
pub enum Msg {
    GetRecommendation(String),
    LoadData,
}

/// A fatal fault of one load pass; the model is left short of `Done`.
#[derive(PartialEq, Eq, Structural, Clone, Copy, Debug)]
pub enum LoadError {
    /// The response body could not be read as delimited records.
    Unreadable,
    /// A record is missing one of the required fields.
    MissingFields,
}

/// What a load tick asks of the host.
#[derive(PartialEq, Eq, Structural, Clone, Copy, Debug)]
pub struct TickEffect {
    /// The view must be redrawn.
    pub redraw: bool,
    /// The host must issue the dataset GET now.
    pub send_request: bool,
}

/// The data half of the model: catalog entries plus the tag index.
#[verifier::ext_equal]
pub struct DataView {
    pub catalog: Seq<(Seq<char>, u32)>,
    pub index: IndexView,
}

/// The records that csv's reader yields for a body, one sequence of
/// fields per record, or nothing when some record cannot be read.
pub uninterp spec fn csv_rows_of(s: Seq<char>) -> Option<Seq<Seq<Seq<char>>>>;

/// Relies on csv::Reader in its default configuration (the first line is
/// a header; the records are the lines after it): the records read from a
/// fixed body are a function of that body alone, and reading fails only
/// as a function of the body too.
#[verifier::external_body]
fn parse_csv_records(body: &str) -> (r: Option<Vec<Vec<String>>>)
    ensures
        match r {
            Some(rows) => csv_rows_of(body@) == Some(rows.deep_view()),
            None => csv_rows_of(body@) is None,
        },
{
    let mut reader = csv::Reader::from_reader(body.as_bytes());
    let mut rows: Vec<Vec<String>> = Vec::new();
    for record in reader.records() {
        match record {
            Ok(rec) => rows.push(rec.iter().map(|f| f.to_string()).collect()),
            Err(_) => return None,
        }
    }
    Some(rows)
}

/// Every record carries the six fields the dataset contract requires.
pub open spec fn rows_wf(rows: Seq<Seq<Seq<char>>>) -> bool {
    forall|i: int| 0 <= i < rows.len() ==> rows[i].len() >= 6
}

/// One category of a record: its trimmed form is registered as a tag and
/// associated with the record's identifier, unless it trims to nothing.
pub open spec fn tag_step(d: DataView, id: Seq<char>, cat: Seq<char>) -> DataView {
    let t = trim_of(cat);
    if t.len() == 0 {
        d
    } else {
        DataView {
            catalog: d.catalog,
            index: IndexView {
                objects: d.index.objects,
                tags: dedup_insert(d.index.tags, t),
                pairs: pair_insert(d.index.pairs, (id, t)),
            },
        }
    }
}

/// All categories of a record, applied left to right.
pub open spec fn tags_fold(d: DataView, id: Seq<char>, cats: Seq<Seq<char>>) -> DataView
    decreases cats.len(),
{
    if cats.len() == 0 {
        d
    } else {
        tags_fold(tag_step(d, id, cats[0]), id, cats.skip(1))
    }
}

/// One record: field 1 is the identifier, field 2 the comma-separated
/// category list, field 5 the rating.
pub open spec fn row_apply(d: DataView, row: Seq<Seq<char>>) -> DataView {
    tags_fold(
        DataView {
            catalog: entries_insert(d.catalog, row[1], rating_centi_of(row[5])),
            index: IndexView {
                objects: dedup_insert(d.index.objects, row[1]),
                tags: d.index.tags,
                pairs: d.index.pairs,
            },
        },
        row[1],
        spec_split(row[2]),
    )
}

/// A whole load pass, record by record.
pub open spec fn rows_apply(d: DataView, rows: Seq<Seq<Seq<char>>>) -> DataView
    decreases rows.len(),
{
    if rows.len() == 0 {
        d
    } else {
        rows_apply(row_apply(d, rows[0]), rows.skip(1))
    }
}

/// The widget's single authoritative state.
pub struct Model {
    load_state: LoadState,
    catalog: Catalog,
    index: TagIndex,
    query: String,
    suggested_query: String,
    recommendation: String,
}

impl Model {
    /// Progress of the dataset load.
    pub closed spec fn load_state_spec(&self) -> LoadState {
        self.load_state
    }

    /// The catalog entries and the tag index.
    pub closed spec fn data(&self) -> DataView {
        DataView { catalog: self.catalog@, index: self.index@ }
    }

    /// The raw query bound to the view's input field.
    pub closed spec fn query_view(&self) -> Seq<char> {
        self.query@
    }

    /// The current typeahead suggestion.
    pub closed spec fn suggestion_view(&self) -> Seq<char> {
        self.suggested_query@
    }

    /// The current recommendation.
    pub closed spec fn recommendation_view(&self) -> Seq<char> {
        self.recommendation@
    }

    /// A fresh model: nothing loaded, nothing queried.
    pub fn create() -> (m: Model)
        ensures
            m.load_state_spec() is NotStarted,
            m.data().catalog == Seq::<(Seq<char>, u32)>::empty(),
            m.data().index.objects == Seq::<Seq<char>>::empty(),
            m.data().index.tags == Seq::<Seq<char>>::empty(),
            m.data().index.pairs == Seq::<(Seq<char>, Seq<char>)>::empty(),
            m.query_view() == Seq::<char>::empty(),
            m.suggestion_view() == Seq::<char>::empty(),
            m.recommendation_view() == Seq::<char>::empty(),
    {
        Model {
            load_state: LoadState::NotStarted,
            catalog: Catalog::new(),
            index: TagIndex::new(),
            query: String::new(),
            suggested_query: String::new(),
            recommendation: String::new(),
        }
    }

    /// Ingests already parsed records: each one puts its identifier and
    /// rating in the catalog, registers the identifier as an object, and
    /// tags it with each trimmed, non-empty category. A record with
    /// fewer than six fields is a fatal fault of the pass and leaves the
    /// model untouched.
    #[verifier::rlimit(50)]
    pub fn ingest_rows(&mut self, rows: &Vec<Vec<String>>) -> (r: Result<(), LoadError>)
        ensures
            final(self).load_state_spec() == old(self).load_state_spec(),
            final(self).query_view() == old(self).query_view(),
            final(self).suggestion_view() == old(self).suggestion_view(),
            final(self).recommendation_view() == old(self).recommendation_view(),
            rows_wf(rows.deep_view()) ==> r is Ok && final(self).data() == rows_apply(
                old(self).data(),
                rows.deep_view(),
            ),
            !rows_wf(rows.deep_view()) ==> r == Err::<(), LoadError>(LoadError::MissingFields) && *final(self)
                == *old(self),
    {
        let ghost rv: Seq<Seq<Seq<char>>> = rows.deep_view();
        let n = rows.len();
        let mut i: usize = 0;
        while i < n
            invariant
                n == rows.len(),
                rv == rows.deep_view(),
                i <= n,
                forall|j: int| 0 <= j < i ==> rv[j].len() >= 6,
            decreases n - i,
        {
            if rows[i].len() < 6 {
                assert(rv[i as int].len() < 6);
                return Err(LoadError::MissingFields);
            }
            assert(rv[i as int].len() >= 6);
            i += 1;
        }
        assert(rows_wf(rv));
        let ghost goal = rows_apply(self.data(), rv);
        proof {
            assert(rv.skip(0) =~= rv);
        }
        i = 0;
        while i < n
            invariant
                n == rows.len(),
                rv == rows.deep_view(),
                i <= n,
                rows_wf(rv),
                self.load_state_spec() == old(self).load_state_spec(),
                self.query_view() == old(self).query_view(),
                self.suggestion_view() == old(self).suggestion_view(),
                self.recommendation_view() == old(self).recommendation_view(),
                goal == rows_apply(old(self).data(), rv),
                rows_apply(self.data(), rv.skip(i as int)) == goal,
            decreases n - i,
        {
            let ghost d_row = self.data();
            proof {
                assert(rv.skip(i as int)[0] == rv[i as int]);
                assert(rv.skip(i as int).skip(1) =~= rv.skip(i + 1));
            }
            let row: &Vec<String> = &rows[i];
            proof {
                assert(rv[i as int] == rows@[i as int].deep_view());
            }
            let name: &String = &row[1];
            let cats: Vec<String> = split_commas(row[2].as_str());
            let centi: u32 = parse_rating(row[5].as_str());
            proof {
                assert(name@ == rv[i as int][1]);
                assert(row@[2]@ == rv[i as int][2]);
                assert(row@[5]@ == rv[i as int][5]);
            }
            self.catalog.insert(name.clone(), centi);
            self.index.add_object(name);
            let ghost idv = rv[i as int][1];
            let ghost catsv = spec_split(rv[i as int][2]);
            let ghost h = row_apply(d_row, rv[i as int]);
            proof {
                assert(cats.deep_view() == catsv);
                assert(catsv.skip(0) =~= catsv);
                assert(tags_fold(self.data(), idv, catsv.skip(0)) == h);
            }
            let m = cats.len();
            let mut jj: usize = 0;
            while jj < m
                invariant
                    m == cats.len(),
                    jj <= m,
                    cats.deep_view() == catsv,
                    n == rows.len(),
                    rv == rows.deep_view(),
                    rows_wf(rv),
                    i < n,
                    idv == rv[i as int][1],
                    self.load_state_spec() == old(self).load_state_spec(),
                    self.query_view() == old(self).query_view(),
                    self.suggestion_view() == old(self).suggestion_view(),
                    self.recommendation_view() == old(self).recommendation_view(),
                    goal == rows_apply(old(self).data(), rv),
                    rows_apply(h, rv.skip(i + 1)) == goal,
                    tags_fold(self.data(), idv, catsv.skip(jj as int)) == h,
                decreases m - jj,
            {
                proof {
                    assert(catsv.skip(jj as int)[0] == catsv[jj as int]);
                    assert(catsv.skip(jj as int).skip(1) =~= catsv.skip(jj + 1));
                    assert(cats@[jj as int]@ == catsv[jj as int]);
                }
                let trimmed = trim_ws(cats[jj].as_str());
                let row2: &Vec<String> = &rows[i];
                let name2: &String = &row2[1];
                proof {
                    assert(name2@ == idv);
                }
                if !trimmed.is_empty() {
                    self.index.add_tag(trimmed);
                    self.index.tag_object(name2, trimmed);
                }
                jj += 1;
            }
            proof {
                assert(catsv.skip(m as int) =~= Seq::<Seq<char>>::empty());
                assert(self.data() == h);
            }
            i += 1;
        }
        proof {
            assert(rv.skip(n as int) =~= Seq::<Seq<Seq<char>>>::empty());
        }
        Ok(())
    }

    /// One tick of the periodic load poll. Before the request is sent,
    /// the tick asks the host to send it; while it is in flight, nothing
    /// happens; on the tick that finds the body ready, the body is
    /// parsed and ingested and the state reaches `Done`; afterwards
    /// every tick is a free no-op. The redraw signal rises only on the
    /// `Done`-reaching tick.
    pub fn load_tick(&mut self, response: Option<String>) -> (r: Result<TickEffect, LoadError>)
        ensures
            final(self).query_view() == old(self).query_view(),
            final(self).suggestion_view() == old(self).suggestion_view(),
            final(self).recommendation_view() == old(self).recommendation_view(),
            old(self).load_state_spec() is Done ==> *final(self) == *old(self) && r
                == Ok::<TickEffect, LoadError>((TickEffect { redraw: false, send_request: false })),
            old(self).load_state_spec() is NotStarted ==> final(self).load_state_spec() is Sent
                && final(self).data() == old(self).data() && r == Ok::<TickEffect, LoadError>(
                (TickEffect { redraw: false, send_request: true })),
            old(self).load_state_spec() is Sent ==> match response {
                None => *final(self) == *old(self) && r == Ok::<TickEffect, LoadError>(
                    (TickEffect { redraw: false, send_request: false })),
                Some(body) => match csv_rows_of(body@) {
                    None => *final(self) == *old(self) && r == Err::<TickEffect, LoadError>(
                        LoadError::Unreadable,
                    ),
                    Some(rows) => if rows_wf(rows) {
                        final(self).load_state_spec() is Done && final(self).data() == rows_apply(
                            old(self).data(),
                            rows,
                        ) && r == Ok::<TickEffect, LoadError>(
                            (TickEffect { redraw: true, send_request: false }),
                        )
                    } else {
                        *final(self) == *old(self) && r == Err::<TickEffect, LoadError>(
                            LoadError::MissingFields,
                        )
                    },
                },
            },
    {
        match self.load_state {
            LoadState::Done => Ok(TickEffect { redraw: false, send_request: false }),
            LoadState::NotStarted => {
                self.load_state = LoadState::Sent;
                Ok(TickEffect { redraw: false, send_request: true })
            },
            LoadState::Sent => match response {
                None => Ok(TickEffect { redraw: false, send_request: false }),
                Some(body) => match parse_csv_records(body.as_str()) {
                    None => Err(LoadError::Unreadable),
                    Some(rows) => match self.ingest_rows(&rows) {
                        Ok(_) => {
                            self.load_state = LoadState::Done;
                            Ok(TickEffect { redraw: true, send_request: false })
                        },
                        Err(e) => Err(e),
                    },
                },
            },
        }
    }

    /// One query event. The recommendation is always recomputed as the
    /// head of the ranked candidates the host's engine returned for the
    /// raw query. The suggestion clears for an empty query, is searched
    /// in the catalog for a query longer than three characters, and
    /// sticks to its previous value for one to three characters. The
    /// result says whether either value actually changed.
    pub fn query_input(&mut self, raw: &String, ranked: &Vec<String>) -> (redraw: bool)
        ensures
            final(self).load_state_spec() == old(self).load_state_spec(),
            final(self).data() == old(self).data(),
            final(self).query_view() == old(self).query_view(),
            final(self).recommendation_view() == (if ranked@.len() > 0 {
                ranked@[0]@
            } else {
                Seq::<char>::empty()
            }),
            raw@.len() == 0 ==> final(self).suggestion_view() == Seq::<char>::empty(),
            1 <= raw@.len() <= 3 ==> final(self).suggestion_view() == old(self).suggestion_view(),
            raw@.len() > 3 ==> final(self).suggestion_view() == spec_suggest(
                old(self).data().catalog,
                raw@,
            ),
            redraw == !(final(self).recommendation_view() == old(self).recommendation_view()
                && final(self).suggestion_view() == old(self).suggestion_view()),
    {
        let new_recommendation = if ranked.len() > 0 {
            ranked[0].clone()
        } else {
            String::new()
        };
        let new_suggestion = if raw.as_str().is_empty() {
            String::new()
        } else if raw.as_str().unicode_len() > 3 {
            self.catalog.suggest(raw.as_str())
        } else {
            self.suggested_query.clone()
        };
        if self.recommendation != new_recommendation || self.suggested_query != new_suggestion {
            self.recommendation = new_recommendation;
            self.suggested_query = new_suggestion;
            true
        } else {
            false
        }
    }

    /// Progress of the dataset load.
    pub fn load_state(&self) -> (r: LoadState)
        ensures
            r == self.load_state_spec(),
    {
        self.load_state
    }

    /// The raw query bound to the view's input field.
    pub fn query(&self) -> (r: &String)
        ensures
            r@ == self.query_view(),
    {
        &self.query
    }

    /// The current typeahead suggestion.
    pub fn suggested_query(&self) -> (r: &String)
        ensures
            r@ == self.suggestion_view(),
    {
        &self.suggested_query
    }

    /// The current recommendation.
    pub fn recommendation(&self) -> (r: &String)
        ensures
            r@ == self.recommendation_view(),
    {
        &self.recommendation
    }

    /// Rating of `name` in hundredths; an unknown identifier reads as
    /// zero.
    pub fn rating_centi(&self, name: &String) -> (r: u32)
        ensures
            r == rating_or_zero(self.data().catalog, name@),
    {
        self.catalog.get_centi(name)
    }

    /// The catalog built by the load pass.
    pub fn catalog(&self) -> (r: &Catalog)
        ensures
            r@ == self.data().catalog,
    {
        &self.catalog
    }

    /// The tag index built by the load pass, from which the host feeds
    /// its ranking engine.
    pub fn index(&self) -> (r: &TagIndex)
        ensures
            r@ == self.data().index,
    {
        &self.index
    }

    /// The status line's text.
    pub fn data_message(&self) -> (r: String)
        ensures
            self.load_state_spec() is Done ==> r@ == "Data loaded"@,
            !(self.load_state_spec() is Done) ==> r@ == "Loading data..."@,
    {
        match self.load_state {
            LoadState::Done => String::from_str("Data loaded"),
            _ => String::from_str("Loading data..."),
        }
    }
}

} // verus!
