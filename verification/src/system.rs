//! The asset cache and load subsystem.
//!
//! One cache entry per distinct path: created `Loading` on the first
//! request, resolved to `Loaded` or `Failed` exactly once, never evicted.
//! Requests for a key already loading are queued; requests for a loaded key
//! apply the mapping immediately; requests on an entity that already
//! carries the `subdoc_loaded` marker are rejected; a failed load is never
//! retried. The import itself happens outside: a `Dispatched` outcome asks
//! the caller to run the importer and hand the result to
//! [`SubdocSubSystem::resolve_import`]; each tick,
//! [`SubdocSubSystem::update`] drains the queues of entries that have
//! loaded.

use vstd::prelude::*;
use crate::asset::{
    Asset3d,
    mesh_extractable,
    node_size,
    resources_registered,
    scene_appended,
};
use crate::doc3d::{Document, plookup};
use crate::keys::{path_is_x_format, x_extension};
use crate::pon::Pon;
use crate::scene::SceneGraph;
use vstd::string::StringSliceAdditionalSpecFns;

verus! {

/// Why an import failed: the request is dropped, the cache entry records
/// the failure, and the load is not retried.
#[derive(Clone, Copy, PartialEq, Eq, Structural, Debug)]
pub enum ImportError {
    UnreadablePath,
    Malformed,
    UnsupportedFormat,
}

/// The life of one cache entry.
#[derive(Debug)]
pub enum LoadState {
    Loading,
    Loaded(Asset3d),
    Failed,
}

/// One cache entry: the load key, its state, and the entities waiting for
/// the load to finish.
#[derive(Debug)]
pub struct AssetEntry {
    pub key: String,
    pub state: LoadState,
    pub pending: Vec<usize>,
}

/// A changed property, as the host reports it.
#[derive(Debug)]
pub struct PropRef {
    pub entity_id: usize,
    pub property_key: String,
}

/// What one load request did.
#[derive(Clone, Copy, PartialEq, Eq, Structural, Debug)]
pub enum RequestOutcome {
    Rejected,
    AppliedNow,
    Enqueued,
    KnownFailed,
    Dispatched,
}

/// What handing back an import result did.
#[derive(Clone, Copy, PartialEq, Eq, Structural, Debug)]
pub enum ResolveOutcome {
    Resolved,
    ResolvedFailed,
    NoPendingLoad,
}

/// The subsystem: the root directory for load paths and the cache.
#[derive(Debug)]
pub struct SubdocSubSystem {
    pub root_path: String,
    pub assets: Vec<AssetEntry>,
}

/// The first cache entry whose key is `key`.
pub open spec fn find_asset(assets: Seq<AssetEntry>, key: Seq<char>) -> Option<int>
    decreases assets.len(),
{
    if assets.len() == 0 {
        None
    } else if assets[0].key@ == key {
        Some(0)
    } else {
        match find_asset(assets.drop_first(), key) {
            Some(i) => Some(i + 1),
            None => None,
        }
    }
}

/// Whether entity `e` already carries the "loaded" marker property.
pub open spec fn has_marker(doc: Document, e: int) -> bool {
    plookup(doc.entities@[e].props@, "subdoc_loaded"@) is Some
}

/// Writing the marker on entity `e`: the marker property now holds the
/// path, and nothing else in the document changed.
pub open spec fn marked(d0: Document, d1: Document, e: int, path: Seq<char>) -> bool {
    &&& d1.entities@.len() == d0.entities@.len()
    &&& forall|i: int|
        0 <= i < d0.entities@.len() && i != e ==> d1.entities@[i] == d0.entities@[i]
    &&& d1.entities@[e].parent == d0.entities@[e].parent
    &&& d1.entities@[e].kind == d0.entities@[e].kind
    &&& d1.entities@[e].name == d0.entities@[e].name
    &&& (match plookup(d1.entities@[e].props@, "subdoc_loaded"@) {
        Some(Pon::Str(s)) => s@ == path,
        _ => false,
    })
    &&& forall|k2: Seq<char>|
        k2 != "subdoc_loaded"@ ==> plookup(d1.entities@[e].props@, k2) == plookup(
            d0.entities@[e].props@,
            k2,
        )
    &&& d1.resources == d0.resources
}

proof fn lemma_find_asset_unique(assets: Seq<AssetEntry>, key: Seq<char>, i: int)
    requires
        0 <= i < assets.len(),
        assets[i].key@ == key,
        forall|j: int| 0 <= j < i ==> (#[trigger] assets[j]).key@ != key,
    ensures
        find_asset(assets, key) == Some(i),
    decreases i,
{
    if i == 0 {
    } else {
        lemma_find_asset_unique(assets.drop_first(), key, i - 1);
    }
}

proof fn lemma_find_asset_none(assets: Seq<AssetEntry>, key: Seq<char>)
    requires
        forall|j: int| 0 <= j < assets.len() ==> (#[trigger] assets[j]).key@ != key,
    ensures
        find_asset(assets, key) is None,
    decreases assets.len(),
{
    if assets.len() > 0 {
        lemma_find_asset_none(assets.drop_first(), key);
    }
}

/// A cache whose keys are kept (and possibly extended) still resolves
/// every key it resolved before: the cache never unloads.
pub proof fn lemma_find_asset_monotone(a1: Seq<AssetEntry>, a2: Seq<AssetEntry>, key: Seq<char>)
    requires
        a1.len() <= a2.len(),
        forall|i: int| 0 <= i < a1.len() ==> (#[trigger] a2[i]).key@ == a1[i].key@,
        find_asset(a1, key) is Some,
    ensures
        find_asset(a2, key) is Some,
    decreases a1.len(),
{
    if a1.len() > 0 {
        if a1[0].key@ == key {
        } else {
            assert(a2[0].key@ != key);
            assert forall|i: int|
                0 <= i < a1.drop_first().len() implies (#[trigger] a2.drop_first()[i]).key@
                == a1.drop_first()[i].key@ by {
                assert(a2.drop_first()[i] == a2[i + 1]);
                assert(a1.drop_first()[i] == a1[i + 1]);
            }
            lemma_find_asset_monotone(a1.drop_first(), a2.drop_first(), key);
        }
    }
}


/// How many entities one tick will append for the entries `assets[i..]`:
/// each entity queued on a loaded entry receives one copy of that asset's
/// node tree.
pub open spec fn pending_work(assets: Seq<AssetEntry>, i: int) -> int
    decreases assets.len() - i,
{
    if i < 0 || i >= assets.len() {
        0
    } else {
        (match assets[i].state {
            LoadState::Loaded(a) => assets[i].pending@.len() * node_size(a.scene.nodes@, 0),
            _ => 0,
        }) + pending_work(assets, i + 1)
    }
}


/// One tick's application for one loaded entry: `docs[0]` is the document
/// the entry found, and each queued entity, in request order, receives the
/// asset's mapping ([`scene_appended`]) in turn.
pub open spec fn applied_trace(a: Asset3d, pending: Seq<usize>, docs: Seq<Document>) -> bool {
    &&& docs.len() == pending.len() + 1
    &&& forall|k: int|
        0 <= k < pending.len() ==> scene_appended(
            a,
            #[trigger] docs[k],
            docs[k + 1],
            Some(pending[k]),
        )
}

/// The whole tick: one document-trace segment per cache entry, threaded in
/// entry order. A loaded entry's segment applies the asset's mapping to
/// each of its queued entities; any other entry leaves the document as it
/// found it.
pub open spec fn update_serves(
    assets: Seq<AssetEntry>,
    traces: Seq<Seq<Document>>,
    d0: Document,
    d1: Document,
) -> bool {
    &&& traces.len() == assets.len()
    &&& (assets.len() == 0 ==> d1 == d0)
    &&& forall|i: int| 0 <= i < assets.len() ==> (#[trigger] traces[i]).len() >= 1
    &&& forall|i: int|
        0 <= i < assets.len() ==> (#[trigger] traces[i])[0] == (if i == 0 {
            d0
        } else {
            traces[i - 1].last()
        })
    &&& (assets.len() > 0 ==> traces[assets.len() - 1].last() == d1)
    &&& forall|i: int|
        0 <= i < assets.len() ==> (match (#[trigger] assets[i]).state {
            LoadState::Loaded(a) => applied_trace(a, assets[i].pending@, traces[i]),
            _ => traces[i].len() == 1,
        })
}


/// Everything one load request does, relating the subsystem and document
/// before (`s0`, `d0`) and after (`s1`, `d1`): the marker guard, the
/// dedup by path, the immediate application for a loaded entry, the queue
/// for one still loading, the refusal to retry a failure, and the new
/// `Loading` entry for an unseen path.
pub open spec fn request_step(
    s0: SubdocSubSystem,
    d0: Document,
    s1: SubdocSubSystem,
    d1: Document,
    entity_id: usize,
    path: Seq<char>,
    outcome: RequestOutcome,
) -> bool {
    &&& s1.root_path == s0.root_path
    &&& d1.resources == d0.resources
    &&& d1.entities@.len() >= d0.entities@.len()
    &&& s1.assets@.len() >= s0.assets@.len()
    &&& forall|i: int|
        0 <= i < s0.assets@.len() ==> (#[trigger] s1.assets@[i]).key == s0.assets@[i].key
    &&& (outcome == RequestOutcome::Rejected <==> has_marker(d0, entity_id as int))
    &&& (outcome == RequestOutcome::Dispatched <==> (!has_marker(d0, entity_id as int)
        && find_asset(s0.assets@, path) is None))
    &&& (if has_marker(d0, entity_id as int) {
        d1 == d0 && s1 == s0
    } else {
        match find_asset(s0.assets@, path) {
            None => {
                &&& s1.assets@.len() == s0.assets@.len() + 1
                &&& forall|i: int|
                    0 <= i < s0.assets@.len() ==> s1.assets@[i] == #[trigger] s0.assets@[i]
                &&& s1.assets@.last().key@ == path
                &&& s1.assets@.last().state is Loading
                &&& s1.assets@.last().pending@ == seq![entity_id]
                &&& marked(d0, d1, entity_id as int, path)
            },
            Some(i) => match s0.assets@[i].state {
                LoadState::Loading => {
                    &&& outcome == RequestOutcome::Enqueued
                    &&& s1.assets@.len() == s0.assets@.len()
                    &&& forall|j: int|
                        0 <= j < s0.assets@.len() && j != i ==> s1.assets@[j]
                            == #[trigger] s0.assets@[j]
                    &&& s1.assets@[i].key == s0.assets@[i].key
                    &&& s1.assets@[i].state == s0.assets@[i].state
                    &&& s1.assets@[i].pending@ == s0.assets@[i].pending@.push(entity_id)
                    &&& marked(d0, d1, entity_id as int, path)
                },
                LoadState::Loaded(a) => {
                    &&& outcome == RequestOutcome::AppliedNow
                    &&& s1.assets@ == s0.assets@
                    &&& exists|mid: Document|
                        #[trigger] scene_appended(a, d0, mid, Some(entity_id)) && marked(
                            mid,
                            d1,
                            entity_id as int,
                            path,
                        )
                },
                LoadState::Failed => {
                    &&& outcome == RequestOutcome::KnownFailed
                    &&& d1 == d0
                    &&& s1.assets@ == s0.assets@
                },
            },
        }
    })
}

impl SubdocSubSystem {
    /// Every loaded entry holds a valid asset.
    pub open spec fn wf(&self) -> bool {
        forall|i: int|
            0 <= i < self.assets@.len() ==> (match (#[trigger] self.assets@[i]).state {
                LoadState::Loaded(a) => a.valid(),
                _ => true,
            })
    }

    /// Every queued entity id names an entity of `doc`.
    pub open spec fn pending_bound(&self, doc: Document) -> bool {
        forall|i: int, j: int|
            0 <= i < self.assets@.len() && 0 <= j < (#[trigger] self.assets@[i]).pending@.len()
                ==> (#[trigger] self.assets@[i].pending@[j]) < doc.entities@.len()
    }

    pub fn new(root_path: String) -> (s: SubdocSubSystem)
        ensures
            s.root_path == root_path,
            s.assets@.len() == 0,
            s.wf(),
    {
        SubdocSubSystem { root_path, assets: Vec::new() }
    }

    fn find_entry(&self, path: &str) -> (r: Option<usize>)
        ensures
            (match r {
                Some(i) => i < self.assets@.len() && find_asset(self.assets@, path@) == Some(
                    i as int,
                ),
                None => find_asset(self.assets@, path@) is None,
            }),
    {
        let target = String::from_str(path);
        let mut i: usize = 0;
        while i < self.assets.len()
            invariant
                i <= self.assets@.len(),
                target@ == path@,
                forall|j: int| 0 <= j < i ==> (#[trigger] self.assets@[j]).key@ != path@,
            decreases self.assets@.len() - i,
        {
            if self.assets[i].key.eq(&target) {
                proof {
                    lemma_find_asset_unique(self.assets@, path@, i as int);
                }
                return Some(i);
            }
            i = i + 1;
        }
        proof {
            lemma_find_asset_none(self.assets@, path@);
        }
        None
    }

    /// Handles one "load this asset" request from entity `entity_id` for
    /// `path`, deduplicating by path and guarding against a second load on
    /// a marked entity.
    pub fn on_load_request(&mut self, doc: &mut Document, entity_id: usize, path: &str) -> (
        outcome: RequestOutcome)
        requires
            old(self).wf(),
            old(self).pending_bound(*old(doc)),
            entity_id < old(doc).entities@.len(),
        ensures
            final(self).wf(),
            final(self).pending_bound(*final(doc)),
            (outcome == RequestOutcome::Rejected <==> has_marker(*old(doc), entity_id as int)),
            (outcome == RequestOutcome::Dispatched <==> (!has_marker(*old(doc), entity_id as int)
                && find_asset(old(self).assets@, path@) is None)),
            request_step(
                *old(self),
                *old(doc),
                *final(self),
                *final(doc),
                entity_id,
                path@,
                outcome,
            ),
    {
        if doc.has_property(entity_id, "subdoc_loaded") {
            return RequestOutcome::Rejected;
        }
        let found = self.find_entry(path);
        match found {
            None => {
                let mut pending: Vec<usize> = Vec::new();
                pending.push(entity_id);
                self.assets.push(
                    AssetEntry {
                        key: String::from_str(path),
                        state: LoadState::Loading,
                        pending,
                    },
                );
                doc.set_property(
                    entity_id,
                    "subdoc_loaded",
                    Pon::Str(String::from_str(path)),
                );
                proof {
                    assert(final(self).assets@.last().pending@ =~= seq![entity_id]);
                }
                RequestOutcome::Dispatched
            },
            Some(i) => {
                let ghost pre_assets = self.assets@;
                let mut entry = self.assets.remove(i);
                proof {
                    assert(match pre_assets[i as int].state {
                        LoadState::Loaded(a2) => a2.valid(),
                        _ => true,
                    });
                }
                let outcome: RequestOutcome;
                match &entry.state {
                    LoadState::Loading => {
                        entry.pending.push(entity_id);
                        outcome = RequestOutcome::Enqueued;
                    },
                    LoadState::Loaded(a) => {
                        a.append_to_document(doc, Some(entity_id));
                        outcome = RequestOutcome::AppliedNow;
                    },
                    LoadState::Failed => {
                        outcome = RequestOutcome::KnownFailed;
                    },
                }
                self.assets.insert(i, entry);
                proof {
                    assert(self.assets@ =~= pre_assets.update(i as int, self.assets@[i as int]));
                }
                if matches!(outcome, RequestOutcome::KnownFailed) {
                    proof {
                        assert(self.assets@ =~= pre_assets);
                    }
                    return RequestOutcome::KnownFailed;
                }
                let ghost dmid = *doc;
                doc.set_property(
                    entity_id,
                    "subdoc_loaded",
                    Pon::Str(String::from_str(path)),
                );
                proof {
                    if matches!(outcome, RequestOutcome::AppliedNow) {
                        assert(self.assets@ =~= pre_assets);
                        assert(marked(dmid, *doc, entity_id as int, path@));
                    }
                }
                outcome
            },
        }
    }
}


impl SubdocSubSystem {
    /// Hands the result of a dispatched import back to the cache. On
    /// success the asset's resources are registered and the entry becomes
    /// `Loaded`; on an import error, or a mesh the extractor rejects, the
    /// entry becomes `Failed` and the document is left untouched. Queued
    /// entities are served on the next [`SubdocSubSystem::update`].
    pub fn resolve_import(
        &mut self,
        doc: &mut Document,
        path: &str,
        imported: Result<SceneGraph, ImportError>,
    ) -> (outcome: ResolveOutcome)
        requires
            old(self).wf(),
            old(self).pending_bound(*old(doc)),
            (match imported {
                Ok(s) => s.valid(),
                Err(_) => true,
            }),
        ensures
            final(self).wf(),
            final(self).pending_bound(*final(doc)),
            final(doc).entities == old(doc).entities,
            final(self).assets@.len() == old(self).assets@.len(),
            final(self).root_path == old(self).root_path,
            (outcome == ResolveOutcome::NoPendingLoad <==> !(match find_asset(
                old(self).assets@,
                path@,
            ) {
                Some(i) => old(self).assets@[i].state is Loading,
                None => false,
            })),
            (outcome == ResolveOutcome::NoPendingLoad
                ==> final(self).assets@ == old(self).assets@ && *final(doc) == *old(doc)),
            (match find_asset(old(self).assets@, path@) {
                Some(i) => (old(self).assets@[i].state is Loading ==> {
                    &&& forall|j: int|
                        0 <= j < old(self).assets@.len() && j != i
                            ==> final(self).assets@[j] == old(self).assets@[j]
                    &&& final(self).assets@[i].key == old(self).assets@[i].key
                    &&& final(self).assets@[i].pending == old(self).assets@[i].pending
                    &&& (match imported {
                        Err(_) => outcome == ResolveOutcome::ResolvedFailed
                            && final(self).assets@[i].state is Failed && *final(doc) == *old(
                            doc,
                        ),
                        Ok(scene) => (if (forall|m: int|
                            0 <= m < scene.meshes@.len() ==> mesh_extractable(
                                #[trigger] scene.meshes@[m],
                            )) {
                            &&& outcome == ResolveOutcome::Resolved
                            &&& (match final(self).assets@[i].state {
                                LoadState::Loaded(a) => {
                                    &&& a.id@ == path@
                                    &&& a.scene == scene
                                    &&& a.invert_texcoord_y == x_extension(path.spec_bytes())
                                    &&& resources_registered(a, *old(doc), *final(doc))
                                },
                                _ => false,
                            })
                        } else {
                            &&& outcome == ResolveOutcome::ResolvedFailed
                            &&& final(self).assets@[i].state is Failed
                            &&& *final(doc) == *old(doc)
                        }),
                    })
                }),
                None => true,
            }),
    {
        let found = self.find_entry(path);
        let i = match found {
            Some(i) => i,
            None => {
                return ResolveOutcome::NoPendingLoad;
            },
        };
        let ghost pre_assets = self.assets@;
        let is_loading = matches!(self.assets[i].state, LoadState::Loading);
        if !is_loading {
            proof {
                assert(self.assets@ =~= pre_assets);
            }
            return ResolveOutcome::NoPendingLoad;
        }
        let mut entry = self.assets.remove(i);
        let outcome: ResolveOutcome;
        match imported {
            Err(_) => {
                entry.state = LoadState::Failed;
                outcome = ResolveOutcome::ResolvedFailed;
            },
            Ok(scene) => {
                let invert = path_is_x_format(path);
                let asset = Asset3d::new(String::from_str(path), scene, invert);
                match asset.add_resources_to_document(doc) {
                    Ok(()) => {
                        entry.state = LoadState::Loaded(asset);
                        outcome = ResolveOutcome::Resolved;
                    },
                    Err(_) => {
                        entry.state = LoadState::Failed;
                        outcome = ResolveOutcome::ResolvedFailed;
                    },
                }
            },
        }
        self.assets.insert(i, entry);
        proof {
            assert(self.assets@ =~= pre_assets.update(i as int, self.assets@[i as int]));
        }
        outcome
    }

    /// One tick: serves every entity queued on an entry that has loaded,
    /// applying the cached mapping to each, and empties those queues.
    pub fn update(&mut self, doc: &mut Document)
        requires
            old(self).wf(),
            old(self).pending_bound(*old(doc)),
        ensures
            final(self).wf(),
            final(self).pending_bound(*final(doc)),
            final(doc).resources == old(doc).resources,
            final(doc).entities@.len() >= old(doc).entities@.len(),
            final(doc).entities@.len() == old(doc).entities@.len() + pending_work(
                old(self).assets@,
                0,
            ),
            final(self).assets@.len() == old(self).assets@.len(),
            final(self).root_path == old(self).root_path,
            forall|i: int|
                0 <= i < old(self).assets@.len() ==> (#[trigger] final(self).assets@[i]).key
                    == old(self).assets@[i].key,
            forall|i: int|
                0 <= i < old(self).assets@.len() ==> (#[trigger] final(self).assets@[i]).state
                    == old(self).assets@[i].state,
            forall|i: int|
                0 <= i < old(self).assets@.len() && (old(self).assets@[i].state is Loaded)
                    ==> (#[trigger] final(self).assets@[i]).pending@.len() == 0,
            forall|i: int|
                0 <= i < old(self).assets@.len() && !(old(self).assets@[i].state is Loaded)
                    ==> (#[trigger] final(self).assets@[i]) == old(self).assets@[i],
            exists|traces: Seq<Seq<Document>>|
                #[trigger] update_serves(old(self).assets@, traces, *old(doc), *final(doc)),
    {
        let ghost mut traces: Seq<Seq<Document>> = Seq::empty();
        let n = self.assets.len();
        let mut i: usize = 0;
        while i < n
            invariant
                i <= n,
                n == self.assets@.len(),
                n == old(self).assets@.len(),
                self.wf(),
                self.pending_bound(*doc),
                self.root_path == old(self).root_path,
                doc.resources == old(doc).resources,
                doc.entities@.len() >= old(doc).entities@.len(),
                doc.entities@.len() == old(doc).entities@.len() + pending_work(
                    old(self).assets@,
                    0,
                ) - pending_work(old(self).assets@, i as int),
                traces.len() == i,
                i == 0 ==> *doc == *old(doc),
                forall|j: int| 0 <= j < i ==> (#[trigger] traces[j]).len() >= 1,
                forall|j: int|
                    0 <= j < i ==> (#[trigger] traces[j])[0] == (if j == 0 {
                        *old(doc)
                    } else {
                        traces[j - 1].last()
                    }),
                i > 0 ==> traces[i as int - 1].last() == *doc,
                forall|j: int|
                    0 <= j < i ==> (match old(self).assets@[j].state {
                        LoadState::Loaded(a2) => applied_trace(
                            a2,
                            old(self).assets@[j].pending@,
                            #[trigger] traces[j],
                        ),
                        _ => traces[j].len() == 1,
                    }),
                forall|j: int|
                    0 <= j < n ==> (#[trigger] self.assets@[j]).key == old(self).assets@[j].key,
                forall|j: int|
                    0 <= j < n ==> (#[trigger] self.assets@[j]).state
                        == old(self).assets@[j].state,
                forall|j: int|
                    0 <= j < i && (old(self).assets@[j].state is Loaded) ==> (
                    #[trigger] self.assets@[j]).pending@.len() == 0,
                forall|j: int|
                    0 <= j < n && !(old(self).assets@[j].state is Loaded)
                        ==> (#[trigger] self.assets@[j]) == old(self).assets@[j],
                forall|j: int|
                    i <= j < n ==> (#[trigger] self.assets@[j]) == old(self).assets@[j],
            decreases n - i,
        {
            let is_loaded = matches!(self.assets[i].state, LoadState::Loaded(_));
            if is_loaded {
                let ghost d0 = *doc;
                let ghost pre_assets = self.assets@;
                let mut entry = self.assets.remove(i);
                proof {
                    assert(match pre_assets[i as int].state {
                        LoadState::Loaded(a2) => a2.valid(),
                        _ => true,
                    });
                }
                let mut k: usize = 0;
                let n_pending = entry.pending.len();
                let ghost mut seg: Seq<Document> = seq![*doc];
                match &entry.state {
                    LoadState::Loaded(a) => {
                        while k < n_pending
                            invariant
                                k <= n_pending,
                                n_pending == entry.pending@.len(),
                                a.valid(),
                                seg.len() == k + 1,
                                seg[0] == d0,
                                seg.last() == *doc,
                                forall|kk: int|
                                    0 <= kk < k ==> scene_appended(
                                        *a,
                                        #[trigger] seg[kk],
                                        seg[kk + 1],
                                        Some(entry.pending@[kk]),
                                    ),
                                doc.entities@.len() == d0.entities@.len() + k * node_size(
                                    a.scene.nodes@,
                                    0,
                                ),
                                forall|j2: int|
                                    0 <= j2 < entry.pending@.len()
                                        ==> (#[trigger] entry.pending@[j2])
                                        < doc.entities@.len(),
                                doc.resources == old(doc).resources,
                                doc.entities@.len() >= old(doc).entities@.len(),
                                doc.entities@.len() >= d0.entities@.len(),
                            decreases n_pending - k,
                        {
                            let e = entry.pending[k];
                            let ghost dlen = doc.entities@.len();
                            a.append_to_document(doc, Some(e));
                            proof {
                                seg = seg.push(*doc);
                                assert(seg.last() == *doc);
                                let ns = node_size(a.scene.nodes@, 0);
                                assert(doc.entities@.skip(dlen as int).len() == ns);
                                assert(doc.entities@.len() == dlen + ns);
                                assert((k + 1) * ns == k * ns + ns) by (nonlinear_arith);
                                assert forall|j2: int|
                                    0 <= j2 < entry.pending@.len() implies (
                                #[trigger] entry.pending@[j2]) < doc.entities@.len() by {
                                    assert(entry.pending@[j2] < dlen);
                                }
                            }
                            k = k + 1;
                        }
                    },
                    _ => {
                    },
                }
                entry.pending = Vec::new();
                self.assets.insert(i, entry);
                proof {
                    assert(self.assets@ =~= pre_assets.update(
                        i as int,
                        self.assets@[i as int],
                    ));
                    assert forall|j: int, j2: int|
                        0 <= j < self.assets@.len() && 0 <= j2 < (
                    #[trigger] self.assets@[j]).pending@.len() implies (
                    #[trigger] self.assets@[j].pending@[j2]) < doc.entities@.len() by {
                        if j != i {
                            assert(self.assets@[j] == pre_assets[j]);
                            assert(pre_assets[j].pending@[j2] < d0.entities@.len());
                        }
                    }
                    assert(pending_work(old(self).assets@, i as int) == (match old(
                        self,
                    ).assets@[i as int].state {
                        LoadState::Loaded(a2) => old(self).assets@[i as int].pending@.len()
                            * node_size(a2.scene.nodes@, 0),
                        _ => 0,
                    }) + pending_work(old(self).assets@, i as int + 1));
                    traces = traces.push(seg);
                    assert(traces[i as int] == seg);
                    assert(match old(self).assets@[i as int].state {
                        LoadState::Loaded(a2) => applied_trace(
                            a2,
                            old(self).assets@[i as int].pending@,
                            seg,
                        ),
                        _ => seg.len() == 1,
                    });
                }
            } else {
                proof {
                    assert(pending_work(old(self).assets@, i as int) == pending_work(
                        old(self).assets@,
                        i as int + 1,
                    ));
                    traces = traces.push(seq![*doc]);
                }
            }
            i = i + 1;
        }
        proof {
            assert(update_serves(old(self).assets@, traces, *old(doc), *doc));
        }
    }
}



/// What handling one reported change does: a "subdoc" reference whose
/// value is a string path performs [`request_step`] for that entity and
/// path (its outcome recorded); any other reference changes nothing and
/// records no outcome.
pub open spec fn notified_step(
    pr: PropRef,
    s0: SubdocSubSystem,
    d0: Document,
    s1: SubdocSubSystem,
    d1: Document,
    outcome: Option<RequestOutcome>,
) -> bool {
    if pr.property_key@ == "subdoc"@ {
        match plookup(d0.entities@[pr.entity_id as int].props@, "subdoc"@) {
            Some(Pon::Str(path)) => (match outcome {
                Some(o) => request_step(s0, d0, s1, d1, pr.entity_id, path@, o),
                None => false,
            }),
            _ => s1 == s0 && d1 == d0 && outcome is None,
        }
    } else {
        s1 == s0 && d1 == d0 && outcome is None
    }
}

/// A notification batch, step by step: `states[j]` is the subsystem and
/// document before the j-th reference is handled, and each consecutive
/// pair is related by [`notified_step`].
pub open spec fn batch_trace(
    refs: Seq<PropRef>,
    states: Seq<(SubdocSubSystem, Document)>,
    outcomes: Seq<Option<RequestOutcome>>,
) -> bool {
    &&& states.len() == refs.len() + 1
    &&& outcomes.len() == refs.len()
    &&& forall|j: int|
        0 <= j < refs.len() ==> notified_step(
            refs[j],
            (#[trigger] states[j]).0,
            states[j].1,
            states[j + 1].0,
            states[j + 1].1,
            outcomes[j],
        )
}

impl SubdocSubSystem {
    /// The host's change-notification entry point: every reported change
    /// of a "subdoc" property whose value is a string is treated as a load
    /// request for that path by that entity, and everything else is left
    /// alone. The result pairs each reference with what its request did
    /// (`None` for references that were not load requests), so the caller
    /// knows which paths were dispatched and need importing. Whatever the
    /// requests do, the cache only grows: every key it resolved before, it
    /// still resolves.
    pub fn on_property_value_change(
        &mut self,
        doc: &mut Document,
        prop_refs: &Vec<PropRef>,
    ) -> (outcomes: Vec<Option<RequestOutcome>>)
        requires
            old(self).wf(),
            old(self).pending_bound(*old(doc)),
            forall|i: int|
                0 <= i < prop_refs@.len() ==> (#[trigger] prop_refs@[i]).entity_id < old(
                    doc,
                ).entities@.len(),
        ensures
            final(self).wf(),
            final(self).pending_bound(*final(doc)),
            final(doc).resources == old(doc).resources,
            final(doc).entities@.len() >= old(doc).entities@.len(),
            final(self).assets@.len() >= old(self).assets@.len(),
            outcomes@.len() == prop_refs@.len(),
            exists|states: Seq<(SubdocSubSystem, Document)>|
                #[trigger] batch_trace(prop_refs@, states, outcomes@) && states[0] == (
                *old(self),
                *old(doc),
            ) && states.last() == (*final(self), *final(doc)),
            forall|i: int|
                0 <= i < old(self).assets@.len() ==> (#[trigger] final(self).assets@[i]).key@
                    == old(self).assets@[i].key@,
            forall|k: Seq<char>|
                #[trigger] find_asset(old(self).assets@, k) is Some ==> find_asset(
                    final(self).assets@,
                    k,
                ) is Some,
    {
        let ghost mut states: Seq<(SubdocSubSystem, Document)> = seq![(*self, *doc)];
        let mut outcomes: Vec<Option<RequestOutcome>> = Vec::new();
        let n = prop_refs.len();
        let mut i: usize = 0;
        while i < n
            invariant
                i <= n,
                n == prop_refs@.len(),
                self.wf(),
                self.pending_bound(*doc),
                doc.resources == old(doc).resources,
                doc.entities@.len() >= old(doc).entities@.len(),
                self.assets@.len() >= old(self).assets@.len(),
                forall|j: int|
                    0 <= j < prop_refs@.len() ==> (#[trigger] prop_refs@[j]).entity_id < old(
                        doc,
                    ).entities@.len(),
                forall|j: int|
                    0 <= j < old(self).assets@.len() ==> (#[trigger] self.assets@[j]).key@
                        == old(self).assets@[j].key@,
                outcomes@.len() == i,
                states.len() == i + 1,
                states[0] == (*old(self), *old(doc)),
                states.last() == (*self, *doc),
                forall|j: int|
                    0 <= j < i ==> notified_step(
                        prop_refs@[j],
                        (#[trigger] states[j]).0,
                        states[j].1,
                        states[j + 1].0,
                        states[j + 1].1,
                        outcomes@[j],
                    ),
            decreases n - i,
        {
            let pr = &prop_refs[i];
            let subdoc_key = String::from_str("subdoc");
            let mut handled: Option<RequestOutcome> = None;
            if pr.property_key.eq(&subdoc_key) {
                let path_opt: Option<String> = match doc.get_property(pr.entity_id, "subdoc") {
                    Some(p) => match p {
                        Pon::Str(s) => Some(s.clone()),
                        _ => None,
                    },
                    None => None,
                };
                match path_opt {
                    Some(path) => {
                        let ghost pre = *self;
                        let ghost dpre = *doc;
                        let o = self.on_load_request(doc, pr.entity_id, path.as_str());
                        handled = Some(o);
                        proof {
                            assert(request_step(
                                pre,
                                dpre,
                                *self,
                                *doc,
                                pr.entity_id,
                                path@,
                                o,
                            ));
                            assert forall|j: int|
                                0 <= j < old(self).assets@.len() implies (
                            #[trigger] self.assets@[j]).key@ == old(self).assets@[j].key@ by {
                                assert(self.assets@[j].key == pre.assets@[j].key);
                            }
                        }
                    },
                    None => {
                    },
                }
            }
            outcomes.push(handled);
            proof {
                states = states.push((*self, *doc));
                assert(states.last() == (*self, *doc));
                assert(notified_step(
                    prop_refs@[i as int],
                    states[i as int].0,
                    states[i as int].1,
                    states[i as int + 1].0,
                    states[i as int + 1].1,
                    outcomes@[i as int],
                ));
            }
            i = i + 1;
        }
        proof {
            assert(batch_trace(prop_refs@, states, outcomes@));
            assert forall|k: Seq<char>|
                #[trigger] find_asset(old(self).assets@, k) is Some implies find_asset(
                self.assets@,
                k,
            ) is Some by {
                lemma_find_asset_monotone(old(self).assets@, self.assets@, k);
            }
        }
        outcomes
    }
}

} // verus!
