//! The scan: from a listing of the root directory's children to a catalog.
//!
//! The caller walks the filesystem and hands over, per child, its name,
//! whether it is a directory, and the sidecar text where one exists; it
//! performs the writes the scan asks for afterwards. Error policy: the first
//! malformed sidecar fails the whole scan.

use vstd::prelude::*;
use crate::catalog::Engine;
use crate::catalog::EngineFields;
use crate::catalog::EngineRoot;
use crate::catalog::EngineRootBuilder;
use crate::codec::from_json;
use crate::codec::json_of;
use crate::codec::lemma_template_round_trip;
use crate::codec::meta_of_json;
use crate::codec::to_json;
use crate::metadata::EngineMetadata;
use crate::metadata::MetaError;
use crate::metadata::MetaFields;
use crate::metadata::template_fields;

verus! {

/// One direct child of the root directory, as the caller listed it.
pub struct ScanEntry {
    pub name: String,
    pub is_dir: bool,
    pub sidecar: Option<String>,
}

/// Ghost view of a [`ScanEntry`].
#[verifier::ext_equal]
pub struct ScanEntryFields {
    pub name: Seq<char>,
    pub is_dir: bool,
    pub sidecar: Option<Seq<char>>,
}

impl View for ScanEntry {
    type V = ScanEntryFields;

    open spec fn view(&self) -> ScanEntryFields {
        ScanEntryFields {
            name: self.name@,
            is_dir: self.is_dir,
            sidecar: self.sidecar.deep_view(),
        }
    }
}

impl DeepView for ScanEntry {
    type V = ScanEntryFields;

    open spec fn deep_view(&self) -> ScanEntryFields {
        self.view()
    }
}

/// What the metadata store decided for one subdirectory: the record, whether
/// a fresh sidecar must be created, and the sidecar text (what was read, or
/// what must be written).
pub struct LoadedMetadata {
    pub metadata: EngineMetadata,
    pub created: bool,
    pub contents: String,
}

/// Ghost view of a [`LoadedMetadata`].
#[verifier::ext_equal]
pub struct LoadedFields {
    pub metadata: MetaFields,
    pub created: bool,
    pub contents: Seq<char>,
}

impl View for LoadedMetadata {
    type V = LoadedFields;

    open spec fn view(&self) -> LoadedFields {
        LoadedFields {
            metadata: self.metadata@,
            created: self.created,
            contents: self.contents@,
        }
    }
}

/// What loading a sidecar yields: the default record and its canonical text
/// where the file is absent, the parsed record where it is present, nothing
/// where its text is malformed.
pub open spec fn load_spec(sidecar: Option<Seq<char>>) -> Option<LoadedFields> {
    match sidecar {
        Option::None => Some(
            LoadedFields {
                metadata: template_fields(),
                created: true,
                contents: json_of(template_fields()),
            },
        ),
        Option::Some(t) => match meta_of_json(t) {
            Some(m) => Some(LoadedFields { metadata: m, created: false, contents: t }),
            None => None,
        },
    }
}

/// The sidecar text after a load: what was read, or what was created.
pub open spec fn load_contents(sidecar: Option<Seq<char>>) -> Seq<char> {
    match load_spec(sidecar) {
        Some(lf) => lf.contents,
        None => Seq::<char>::empty(),
    }
}

/// The metadata store: the record for one subdirectory, from the sidecar
/// text the caller read (`None` where no sidecar file exists). Exactly in
/// the absent case a fresh sidecar must be created with the returned
/// contents.
pub fn load_or_create(sidecar: &Option<String>) -> (r: Result<LoadedMetadata, MetaError>)
    ensures
        match load_spec(sidecar.deep_view()) {
            Some(lf) => r matches Ok(lm) && lm@ == lf,
            None => r matches Err(e) && e == MetaError::Malformed,
        },
{
    match sidecar {
        Option::None => {
            let metadata: EngineMetadata = EngineMetadata::default();
            let contents: String = to_json(&metadata);
            let lm: LoadedMetadata = LoadedMetadata { metadata, created: true, contents };
            proof {
                assert(lm@ =~= load_spec(sidecar.deep_view()).unwrap());
            }
            Ok(lm)
        },
        Option::Some(t) => {
            match from_json(t.as_str()) {
                Ok(metadata) => {
                    let lm: LoadedMetadata = LoadedMetadata {
                        metadata,
                        created: false,
                        contents: t.clone(),
                    };
                    proof {
                        assert(lm@ =~= load_spec(sidecar.deep_view()).unwrap());
                    }
                    Ok(lm)
                },
                Err(e) => Err(e),
            }
        },
    }
}

/// A sidecar file the caller must create: under the subdirectory named
/// `dir_name`, the canonical text `contents`.
pub struct SidecarWrite {
    pub dir_name: String,
    pub contents: String,
}

/// Ghost view of a [`SidecarWrite`].
#[verifier::ext_equal]
pub struct WriteFields {
    pub dir_name: Seq<char>,
    pub contents: Seq<char>,
}

impl View for SidecarWrite {
    type V = WriteFields;

    open spec fn view(&self) -> WriteFields {
        WriteFields { dir_name: self.dir_name@, contents: self.contents@ }
    }
}

impl DeepView for SidecarWrite {
    type V = WriteFields;

    open spec fn deep_view(&self) -> WriteFields {
        self.view()
    }
}

/// The outcome of a scan: the catalog, and the sidecar files the caller
/// must create.
pub struct ScanOutcome {
    pub root: EngineRoot,
    pub writes: Vec<SidecarWrite>,
}

/// The entry a directory child contributes to the catalog.
pub open spec fn engine_of(name: Seq<char>, m: MetaFields) -> EngineFields {
    EngineFields {
        root: name,
        versions: Seq::<Seq<char>>::empty(),
        modpacks: Seq::empty(),
        metadata: m,
    }
}

/// Ghost view of a [`ScanOutcome`]'s two parts.
#[verifier::ext_equal]
pub struct ScanFields {
    pub engines: Seq<EngineFields>,
    pub writes: Seq<WriteFields>,
}

/// What scanning a listing yields: one engine per directory child, in
/// order, each loaded by [`load_spec`]; non-directories contribute nothing.
/// `None` as soon as one sidecar is malformed.
pub open spec fn scan_spec(entries: Seq<ScanEntryFields>) -> Option<ScanFields>
    decreases entries.len(),
{
    if entries.len() == 0 {
        Some(ScanFields { engines: Seq::empty(), writes: Seq::empty() })
    } else {
        match scan_spec(entries.drop_last()) {
            Some(acc) => {
                let e = entries.last();
                if !e.is_dir {
                    Some(acc)
                } else {
                    match load_spec(e.sidecar) {
                        Some(lf) => Some(
                            ScanFields {
                                engines: acc.engines.push(engine_of(e.name, lf.metadata)),
                                writes: if lf.created {
                                    acc.writes.push(
                                        WriteFields { dir_name: e.name, contents: lf.contents },
                                    )
                                } else {
                                    acc.writes
                                },
                            },
                        ),
                        None => None,
                    }
                }
            },
            None => None,
        }
    }
}

/// How many of the listed children are directories.
pub open spec fn dir_count(entries: Seq<ScanEntryFields>) -> int
    decreases entries.len(),
{
    if entries.len() == 0 {
        0
    } else {
        dir_count(entries.drop_last()) + if entries.last().is_dir {
            1int
        } else {
            0int
        }
    }
}

/// A scan that succeeds holds exactly one engine per directory child; the
/// other children are ignored.
pub proof fn lemma_scan_counts_dirs(entries: Seq<ScanEntryFields>)
    requires
        scan_spec(entries) is Some,
    ensures
        scan_spec(entries).unwrap().engines.len() == dir_count(entries),
    decreases entries.len(),
{
    if entries.len() > 0 {
        lemma_scan_counts_dirs(entries.drop_last());
    }
}

/// Once a prefix of the listing fails to scan, the whole listing does.
proof fn lemma_scan_none_extends(entries: Seq<ScanEntryFields>, j: int)
    requires
        0 <= j <= entries.len(),
        scan_spec(entries.take(j)) is None,
    ensures
        scan_spec(entries) is None,
    decreases entries.len() - j,
{
    if j == entries.len() {
        assert(entries.take(j) =~= entries);
    } else {
        assert(entries.take(j + 1).drop_last() =~= entries.take(j));
        lemma_scan_none_extends(entries, j + 1);
    }
}

impl EngineRootBuilder {
    /// The scan's fold: one engine per directory child of the listing, in
    /// listing order, with versions and modpacks empty and the selected
    /// index zero; plus the sidecar writes owed for children that had none.
    /// Fails on the first malformed sidecar.
    pub fn build(&self, entries: &Vec<ScanEntry>) -> (r: Result<ScanOutcome, MetaError>)
        ensures
            match scan_spec(entries.deep_view()) {
                Some(sf) => r matches Ok(o) && o.root@.location == self.location@
                    && o.root@.engines == sf.engines && o.root@.selected == 0
                    && o.writes.deep_view() == sf.writes && o.root@.engines.len() == dir_count(
                    entries.deep_view(),
                ),
                None => r matches Err(e) && e == MetaError::Malformed,
            },
    {
        let ghost dv = entries.deep_view();
        let mut engines: Vec<Engine> = Vec::new();
        let mut writes: Vec<SidecarWrite> = Vec::new();
        let mut i: usize = 0;
        proof {
            assert(dv.take(0) =~= Seq::<ScanEntryFields>::empty());
            assert(engines.deep_view() =~= Seq::<EngineFields>::empty());
            assert(writes.deep_view() =~= Seq::<WriteFields>::empty());
        }
        while i < entries.len()
            invariant
                i <= entries@.len(),
                dv == entries.deep_view(),
                scan_spec(dv.take(i as int)) matches Some(sf) && engines.deep_view() == sf.engines
                    && writes.deep_view() == sf.writes,
            decreases entries@.len() - i,
        {
            let e: &ScanEntry = &entries[i];
            proof {
                assert(dv[i as int] == e.deep_view());
                assert(dv.take(i + 1).drop_last() =~= dv.take(i as int));
                assert(dv.take(i + 1).last() == dv[i as int]);
            }
            if e.is_dir {
                match load_or_create(&e.sidecar) {
                    Ok(lm) => {
                        let created: bool = lm.created;
                        if created {
                            let ghost old_writes = writes.deep_view();
                            writes.push(
                                SidecarWrite { dir_name: e.name.clone(), contents: lm.contents },
                            );
                            proof {
                                assert(writes.deep_view() =~= old_writes.push(
                                    WriteFields { dir_name: e@.name, contents: lm@.contents },
                                ));
                            }
                        }
                        let ghost old_engines = engines.deep_view();
                        engines.push(
                            Engine {
                                root: e.name.clone(),
                                versions: Vec::new(),
                                modpacks: Vec::new(),
                                metadata: lm.metadata,
                            },
                        );
                        proof {
                            assert(engines.deep_view() =~~= old_engines.push(
                                engine_of(e@.name, lm@.metadata),
                            ));
                        }
                    },
                    Err(err) => {
                        proof {
                            assert(scan_spec(dv.take(i + 1)) is None);
                            lemma_scan_none_extends(dv, i + 1);
                        }
                        return Err(err);
                    },
                }
            }
            i = i + 1;
        }
        proof {
            assert(dv.take(entries@.len() as int) =~= dv);
            lemma_scan_counts_dirs(dv);
        }
        Ok(
            ScanOutcome {
                root: EngineRoot { location: self.location.clone(), engines, selected: 0 },
                writes,
            },
        )
    }
}

/// Scanning is idempotent on metadata creation: a second scan of the same
/// listing, in which every directory child now carries the sidecar text the
/// first scan read or created, yields the same engines and asks for no
/// write at all.
pub proof fn lemma_scan_idempotent(first: Seq<ScanEntryFields>, second: Seq<ScanEntryFields>)
    requires
        scan_spec(first) is Some,
        second.len() == first.len(),
        forall|i: int| 0 <= i < first.len() ==> {
            &&& (#[trigger] second[i]).name == first[i].name
            &&& second[i].is_dir == first[i].is_dir
            &&& (first[i].is_dir ==> second[i].sidecar == Some(load_contents(first[i].sidecar)))
        },
    ensures
        scan_spec(second) is Some,
        scan_spec(second).unwrap().engines == scan_spec(first).unwrap().engines,
        scan_spec(second).unwrap().writes.len() == 0,
    decreases first.len(),
{
    if first.len() == 0 {
        assert(second =~= Seq::<ScanEntryFields>::empty());
    } else {
        let n = first.len() - 1;
        assert forall|i: int| 0 <= i < first.drop_last().len() implies {
            &&& (#[trigger] second.drop_last()[i]).name == first.drop_last()[i].name
            &&& second.drop_last()[i].is_dir == first.drop_last()[i].is_dir
            &&& (first.drop_last()[i].is_dir ==> second.drop_last()[i].sidecar == Some(
                load_contents(first.drop_last()[i].sidecar),
            ))
        } by {
            assert(second[i] == second.drop_last()[i]);
            assert(first[i] == first.drop_last()[i]);
        }
        lemma_scan_idempotent(first.drop_last(), second.drop_last());
        let fe = first.last();
        let se = second.last();
        assert(se == second[n] && fe == first[n]);
        if fe.is_dir {
            assert(load_spec(fe.sidecar) is Some);
            match fe.sidecar {
                Option::None => {
                    lemma_template_round_trip();
                    assert(load_spec(se.sidecar).unwrap().metadata == template_fields());
                    assert(load_spec(se.sidecar).unwrap().created == false);
                },
                Option::Some(t) => {
                    assert(load_spec(se.sidecar).unwrap().metadata == load_spec(
                        fe.sidecar,
                    ).unwrap().metadata);
                },
            }
            assert(scan_spec(second).unwrap().engines == scan_spec(first).unwrap().engines);
        } else {
            assert(!se.is_dir);
        }
    }
}

} // verus!
