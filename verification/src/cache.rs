//! A teacher cache on disk: the check of its files, and the bounded set of its
//! shards that is held in memory.
use std::collections::{HashMap, VecDeque};
use vstd::prelude::*;
use crate::archive::{archive_contents, end_fits};
use crate::contract::TeacherCacheManifest;
use crate::shard::{
    first_missing, is_shard, load_shard, loaded, refused_shards_lack_a_tensor, validate_shard, Fault,
    Sample, SampleView, ShardError,
};

verus! {

broadcast use vstd::std_specs::hash::group_hash_axioms;

/// The check of a cache, one shard file after the other.
pub struct CacheCheck<'a> {
    manifest: &'a TeacherCacheManifest,
    /// Shards that were accepted so far.
    accepted: usize,
    /// What was in their files.
    files: Ghost<Seq<Seq<u8>>>,
}

/// A manifest of the one format that is understood.
pub open spec fn supported(manifest: TeacherCacheManifest) -> bool {
    manifest.format_version == 1
}

impl<'a> CacheCheck<'a> {
    /// The manifest of the cache.
    pub closed spec fn manifest(self) -> TeacherCacheManifest {
        *self.manifest
    }

    /// Shards that were accepted so far.
    pub closed spec fn accepted(self) -> nat {
        self.accepted as nat
    }

    /// What was in their files.
    pub closed spec fn files(self) -> Seq<Seq<u8>> {
        self.files@
    }

    /// As many files were read as shards accepted, and every one is a shard.
    pub open spec fn valid(self) -> bool {
        &&& supported(self.manifest())
        &&& self.accepted() <= self.manifest().shards@.len()
        &&& self.files().len() == self.accepted()
        &&& forall|i: int| 0 <= i < self.files().len() ==> is_shard(#[trigger] self.files()[i])
    }

    /// Every shard of the manifest was accepted.
    pub open spec fn complete(self) -> bool {
        self.accepted() == self.manifest().shards@.len()
    }

    /// Opens the check of a cache, if its format is the one that is understood.
    pub fn open(manifest: &'a TeacherCacheManifest) -> (check: Option<CacheCheck<'a>>)
        ensures
            check is Some <==> supported(*manifest),
            check matches Some(c) ==> c.valid() && c.manifest() == *manifest && c.accepted() == 0,
    {
        if manifest.format_version != 1 {
            return None;
        }
        Some(CacheCheck { manifest, accepted: 0, files: Ghost(Seq::empty()) })
    }

    /// The shard file to be read next, if one is left.
    pub fn pending(&self) -> (shard: Option<&'a String>)
        requires
            self.valid(),
        ensures
            shard is None <==> self.complete(),
            shard matches Some(name) ==> *name == self.manifest().shards@[self.accepted() as int],
    {
        if self.accepted == self.manifest.shards.len() {
            return None;
        }
        Some(&self.manifest.shards[self.accepted])
    }

    /// Looks at the bytes of the pending file.
    pub fn accept(&mut self, bytes: &[u8]) -> (verdict: Result<(), ShardError>)
        requires
            old(self).valid(),
            !old(self).complete(),
        ensures
            final(self).valid(),
            final(self).manifest() == old(self).manifest(),
            verdict is Ok <==> is_shard(bytes@),
            verdict is Ok ==> final(self).accepted() == old(self).accepted() + 1
                && final(self).files() == old(self).files().push(bytes@),
            verdict is Err ==> *final(self) == *old(self),
            verdict matches Err(ShardError::Archive(_)) <==> !end_fits(bytes@) || archive_contents(
                bytes@,
            ) is None,
            verdict matches Err(e) ==> e.fault() matches Some(f) ==> first_missing(
                archive_contents(bytes@)->0,
            ) matches Some(name) && f == Fault::Missing(name),
    {
        match validate_shard(bytes) {
            Ok(()) => {
                assert(self.accepted < self.manifest.shards.len() <= usize::MAX);
                self.accepted = self.accepted + 1;
                self.files = Ghost(self.files@.push(bytes@));
                Ok(())
            },
            Err(error) => Err(error),
        }
    }
}

/// The message for a manifest of another format.
pub fn unsupported_format_message() -> (text: String)
    ensures
        text@ == "unsupported teacher-cache format"@,
{
    "unsupported teacher-cache format".to_owned()
}

/// Decoded shards, of which at most `cap` are held at a time. The one that was
/// decoded first leaves first.
pub struct ShardCache {
    shards: Vec<String>,
    relation_layers: Vec<usize>,
    cap: usize,
    resident: HashMap<usize, Sample>,
    order: VecDeque<usize>,
}

impl ShardCache {
    /// The shard files.
    pub closed spec fn files(self) -> Seq<String> {
        self.shards@
    }

    /// The layers whose relations are decoded.
    pub closed spec fn layers(self) -> Seq<usize> {
        self.relation_layers@
    }

    /// How many shards are held at most.
    pub closed spec fn bound(self) -> nat {
        self.cap as nat
    }

    /// The shards held, from the one decoded first to the one decoded last.
    pub closed spec fn held(self) -> Seq<usize> {
        self.order@
    }

    /// The shards held, decoded.
    pub closed spec fn samples(self) -> Map<usize, Sample> {
        self.resident@
    }

    /// At least one and at most `bound` shards fit; each is held once, and none
    /// that is not a shard of the cache.
    pub open spec fn valid(self) -> bool {
        &&& self.bound() >= 1
        &&& self.held().len() <= self.bound()
        &&& self.held().no_duplicates()
        &&& self.samples().dom() == self.held().to_set()
        &&& forall|i: int|
            0 <= i < self.held().len() ==> #[trigger] self.held()[i] < self.files().len()
    }

    /// Every shard held is what its file decodes to, where `contents` are the
    /// bytes of the files.
    pub open spec fn faithful(self, contents: Seq<Seq<u8>>) -> bool {
        forall|index: usize| #[trigger]
            self.samples().contains_key(index) ==> loaded(
                archive_contents(contents[index as int])->0,
                self.layers(),
            ) == Ok::<SampleView, Fault>(self.samples()[index]@)
    }

    /// An empty cache over the given shard files.
    pub fn new(shards: Vec<String>, relation_layers: Vec<usize>, cap: usize) -> (cache: Self)
        ensures
            cache.valid(),
            cache.files() == shards@,
            cache.layers() == relation_layers@,
            cache.bound() == (if cap == 0 {
                1
            } else {
                cap as nat
            }),
            cache.held() == Seq::<usize>::empty(),
            forall|contents: Seq<Seq<u8>>| #[trigger] cache.faithful(contents),
    {
        let cache: ShardCache = ShardCache {
            shards,
            relation_layers,
            cap: if cap == 0 {
                1
            } else {
                cap
            },
            resident: HashMap::new(),
            order: VecDeque::new(),
        };
        assert(cache.resident@.dom() =~= cache.order@.to_set());
        cache
    }

    /// Shard files of the cache.
    pub fn len(&self) -> (count: usize)
        ensures
            count == self.files().len(),
    {
        self.shards.len()
    }

    /// The file of a shard.
    pub fn file(&self, index: usize) -> (name: &String)
        requires
            index < self.files().len(),
        ensures
            *name == self.files()[index as int],
    {
        &self.shards[index]
    }

    /// Shards held.
    pub fn resident_len(&self) -> (count: usize)
        requires
            self.valid(),
        ensures
            count == self.held().len(),
    {
        self.order.len()
    }

    /// The shard with the given index, where it is held.
    pub fn get(&self, index: usize) -> (sample: Option<&Sample>)
        requires
            self.valid(),
        ensures
            sample is Some <==> self.held().contains(index),
            sample matches Some(s) ==> self.samples().contains_key(index) && *s
                == self.samples()[index],
    {
        assert(self.held().to_set().contains(index) <==> self.held().contains(index));
        self.resident.get(&index)
    }

    /// Decodes the bytes of a shard that is not held, and holds it. Where the
    /// cache is full, the shard that was decoded first leaves. Bytes that do not
    /// decode leave the cache as it is.
    pub fn hold(&mut self, index: usize, bytes: &[u8]) -> (verdict: Result<(), ShardError>)
        requires
            old(self).valid(),
            index < old(self).files().len(),
            !old(self).held().contains(index),
        ensures
            final(self).valid(),
            final(self).files() == old(self).files(),
            final(self).layers() == old(self).layers(),
            final(self).bound() == old(self).bound(),
            verdict matches Err(ShardError::Archive(_)) <==> !end_fits(bytes@) || archive_contents(
                bytes@,
            ) is None,
            verdict matches Err(e) ==> e.fault() matches Some(f) ==> loaded(
                archive_contents(bytes@)->0,
                old(self).layers(),
            ) == Err::<SampleView, Fault>(f),
            verdict is Err ==> *final(self) == *old(self),
            verdict is Ok ==> {
                &&& final(self).held() == (if old(self).held().len() == old(self).bound() {
                    old(self).held().skip(1)
                } else {
                    old(self).held()
                }).push(index)
                &&& loaded(archive_contents(bytes@)->0, old(self).layers()) == Ok::<
                    SampleView,
                    Fault,
                >(final(self).samples()[index]@)
                &&& final(self).samples()[index]@.well_shaped()
                &&& forall|other: usize| #[trigger]
                    final(self).held().contains(other) && other != index
                        ==> final(self).samples()[other] == old(self).samples()[other]
            },
            forall|contents: Seq<Seq<u8>>| #[trigger]
                old(self).faithful(contents) && contents[index as int] == bytes@
                    ==> final(self).faithful(contents),
    {
        let sample: Sample = match load_shard(bytes, self.relation_layers.as_slice()) {
            Ok(sample) => sample,
            Err(error) => {
                return Err(error);
            },
        };
        let ghost earlier = self.held();
        let ghost samples = self.samples();
        if self.order.len() >= self.cap {
            if let Some(oldest) = self.order.pop_front() {
                self.resident.remove(&oldest);
            }
        }
        let ghost kept = self.held();
        self.resident.insert(index, sample);
        self.order.push_back(index);
        proof {
            let dropped = earlier.len() == self.bound();
            assert(kept == if dropped {
                earlier.skip(1)
            } else {
                earlier
            });
            assert forall|i: int| 0 <= i < kept.len() implies earlier.contains(#[trigger] kept[i])
                && samples.contains_key(kept[i]) by {
                let j: int = if dropped {
                    i + 1
                } else {
                    i
                };
                assert(earlier[j] == kept[i]);
                assert(earlier.to_set().contains(earlier[j]));
            }
            assert(self.held() =~= kept.push(index));
            assert forall|other: usize|
                self.samples().contains_key(other) <==> self.held().to_set().contains(other) by {
                if self.held().contains(other) {
                    let i = choose|i: int| 0 <= i < self.held().len() && self.held()[i] == other;
                    if i < kept.len() {
                        assert(kept[i] == other);
                        if dropped {
                            assert(earlier[i + 1] == other && earlier[0] != other);
                        }
                    }
                }
                if self.samples().contains_key(other) && other != index {
                    assert(samples.contains_key(other));
                    assert(earlier.to_set().contains(other));
                    let j = choose|j: int| 0 <= j < earlier.len() && earlier[j] == other;
                    let i: int = if dropped {
                        j - 1
                    } else {
                        j
                    };
                    assert(kept[i] == other);
                    assert(self.held()[i] == other);
                }
                if other == index {
                    assert(self.held()[kept.len() as int] == index);
                }
            }
            assert(self.samples().dom() =~= self.held().to_set());
        }
        Ok(())
    }
}

/// A cache that was checked to the end is of the one format that is understood, and
/// has a file for every shard of its manifest, each of them an archive with all
/// four required tensors.
pub proof fn checked_caches_hold_their_shards(check: CacheCheck, i: int)
    requires
        check.valid(),
        check.complete(),
        0 <= i < check.manifest().shards@.len(),
    ensures
        check.manifest().format_version == 1,
        check.files().len() == check.manifest().shards@.len(),
        ({
            let contents = archive_contents(check.files()[i]);
            &&& contents is Some
            &&& contents->0.contains_key("noisy_latents"@)
            &&& contents->0.contains_key("timestep"@)
            &&& contents->0.contains_key("prompt_embeds"@)
            &&& contents->0.contains_key("teacher_noise_pred"@)
        }),
{
    assert(is_shard(check.files()[i]));
    refused_shards_lack_a_tensor(archive_contents(check.files()[i])->0);
}

/// Only caches of format version one are understood.
pub proof fn one_format_is_understood(manifest: TeacherCacheManifest)
    ensures
        supported(manifest) <==> manifest.format_version == 1,
{
}

/// A shard cache never holds more than its bound, and holds no shard twice; what it
/// holds for a shard is what the file of that shard decodes to.
pub proof fn held_shards_are_those_of_their_files(
    cache: ShardCache,
    contents: Seq<Seq<u8>>,
    i: int,
    j: int,
)
    requires
        cache.valid(),
        cache.faithful(contents),
        0 <= i < cache.held().len(),
        0 <= j < cache.held().len(),
    ensures
        cache.held().len() <= cache.bound(),
        i != j ==> cache.held()[i] != cache.held()[j],
        cache.held()[i] < cache.files().len(),
        loaded(archive_contents(contents[cache.held()[i] as int])->0, cache.layers()) == Ok::<
            SampleView,
            Fault,
        >(cache.samples()[cache.held()[i]]@),
{
    let index = cache.held()[i];
    assert(cache.held().contains(index));
    assert(cache.held().to_set().contains(index));
    assert(cache.samples().contains_key(index));
}

} // verus!
