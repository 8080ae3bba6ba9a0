//! Two-level object store: a local directory for the duration of the job, and the Actions cache
//! service for everything after it.
//!
//! Uploads are queued and drained by the teardown step so that a store never delays the response
//! being handed back to the client.
//!
//! Which keys the service holds is read once, as a manifest, at the start of the job. The cache
//! API is rate limited per job and a build makes thousands of requests, so asking the service
//! about each one in turn exhausts the limit long before the build finishes and leaves the cache
//! unusable. Consulting a local set instead means the service is only called for keys it actually
//! has.
//!
//! Objects below a threshold share a single entry. The service charges per entry, so the number of
//! objects matters far more than their size: the small ones are collected and stored together at the
//! end of the job, beside those that an earlier job collected, and unpacked into the local directory
//! at the start of the next. Large objects stay separate.
//!
//! A job that has something to write takes over the newest manifest and the newest shared entry right
//! before it does, so concurrent jobs do not drop each other's entries.
//!
//! The store decides; reading and writing files and calling the service is done outside, and what
//! came of it is handed in.

use crate::gha::{Ending, EndingModel};
use crate::pack::Object;
use crate::policy::Policy;
use crate::stats::{Stats, Summary};
use crate::url::UrlModel;
use crate::{digest, keys, numbers, order, pack, stats, text, url, wire};
use bytes::Bytes;
use dashmap::DashSet;
use vstd::prelude::*;
use vstd::utf8::encode_utf8;

verus! {

pub struct Store {
    /// Whether there is a cache service behind the local directory.
    remote: bool,
    /// Keys already known to be absent remotely. A second lookup within the same job would cost a
    /// round trip to learn the same thing.
    remote_misses: DashSet<String>,
    /// Keys already queued for upload, so a URL fetched twice is only stored once.
    queued: DashSet<String>,
    /// Keys the service is known to hold: the manifest read at startup, plus the uploads this job
    /// confirmed. A key absent from this set is never looked up.
    index: DashSet<String>,
    /// Prefix the manifest is filed under.
    key_prefix: String,
    /// Whether anything was learned this job that the manifest does not already record.
    index_dirty: bool,
    /// Whether the upload queue is closed.
    closed: bool,
    /// The length from which on an object is an entry of its own.
    pack_threshold: u64,
    /// The objects that share an entry: those of the newest such entry that was read, plus the small
    /// ones that this job put.
    packed: Vec<(String, Bytes)>,
    /// Whether this job put any of them.
    pack_dirty: bool,
}

/// What a [`Store`] holds.
pub struct StoreModel {
    pub remote: bool,
    pub misses: Set<Seq<char>>,
    pub queued: Set<Seq<char>>,
    pub index: Set<Seq<char>>,
    pub prefix: Seq<char>,
    pub dirty: bool,
    pub closed: bool,
    pub threshold: nat,
    pub packed: Seq<Object>,
    pub pack_dirty: bool,
}

/// Where an object is to be had.
pub enum Lookup {
    /// In the local directory.
    Found(Bytes),
    /// Nowhere.
    Absent,
    /// Perhaps at the service.
    Ask,
}

/// What is to be done with an object.
#[derive(Debug, Clone, Copy, PartialEq, Eq, Structural)]
pub enum Put {
    /// It was stored before.
    Skip,
    /// It is written to the local directory only.
    Keep,
    /// It is written to the local directory and queued for upload as an entry of its own.
    Queue,
    /// It is written to the local directory and kept for the entry that small objects share.
    Pack,
}

/// The entry that small objects share.
pub struct Parcel {
    pub body: Bytes,
    pub count: usize,
    /// How many bytes the objects have together.
    pub bytes: u64,
}

/// The list of the keys that the service is known to hold.
pub struct Manifest {
    pub body: Bytes,
    pub count: usize,
}

/// A store at the start of a job.
pub open spec fn empty_store(remote: bool, prefix: Seq<char>, threshold: nat) -> StoreModel {
    StoreModel {
        remote,
        misses: Set::empty(),
        queued: Set::empty(),
        index: Set::empty(),
        prefix,
        dirty: false,
        closed: false,
        threshold,
        packed: Seq::empty(),
        pack_dirty: false,
    }
}

/// The keys that a manifest lists: its lines, but for the blank ones.
pub open spec fn listed(raw: Seq<u8>) -> Set<Seq<char>> {
    Set::new(|key: Seq<char>| text::lines(wire::lossy(raw)).contains(key) && !text::blank(key))
}

/// The store after the manifest was read.
pub open spec fn after_load(m: StoreModel, reply: EndingModel) -> StoreModel {
    match reply {
        EndingModel::Found(raw) if m.remote => StoreModel {
            index: m.index.union(listed(raw)),
            ..m
        },
        _ => m,
    }
}

/// Where an object is to be had. The local directory comes first. The manifest is the whole point: a
/// key it does not list cannot be in the service, so there is nothing to ask about.
pub open spec fn lookup(m: StoreModel, key: Seq<char>, local: Option<Bytes>) -> Lookup {
    match local {
        Some(b) => Lookup::Found(b),
        None => if m.remote && m.index.contains(key) && !m.misses.contains(key) {
            Lookup::Ask
        } else {
            Lookup::Absent
        },
    }
}

/// The store after the service was asked for an object.
pub open spec fn after_ask(m: StoreModel, key: Seq<char>, reply: EndingModel) -> StoreModel {
    if reply is Found {
        m
    } else {
        StoreModel { misses: m.misses.insert(key), ..m }
    }
}

/// What is to be done with an object of some length.
pub open spec fn plan(m: StoreModel, key: Seq<char>, len: nat) -> Put {
    if m.queued.contains(key) {
        Put::Skip
    } else if !m.remote || m.closed {
        Put::Keep
    } else if len < m.threshold {
        Put::Pack
    } else {
        Put::Queue
    }
}

/// Objects but for those under a key.
pub open spec fn without(objects: Seq<Object>, key: Seq<char>) -> Seq<Object>
    decreases objects.len(),
{
    if objects.len() == 0 {
        objects
    } else {
        let before = without(objects.drop_last(), key);
        if objects.last().0 == key {
            before
        } else {
            before.push(objects.last())
        }
    }
}

/// Objects with one more, in place of those under its key.
pub open spec fn with(objects: Seq<Object>, o: Object) -> Seq<Object> {
    without(objects, o.0).push(o)
}

/// Objects with several more, each in its turn.
pub open spec fn with_all(objects: Seq<Object>, more: Seq<Object>) -> Seq<Object>
    decreases more.len(),
{
    if more.len() == 0 {
        objects
    } else {
        with(with_all(objects, more.drop_last()), more.last())
    }
}

/// The store after an object was put.
pub open spec fn after_put(m: StoreModel, key: Seq<char>, body: Seq<u8>) -> StoreModel {
    let next = StoreModel { queued: m.queued.insert(key), ..m };
    if plan(m, key, body.len()) is Pack {
        StoreModel { packed: with(m.packed, (key, body)), pack_dirty: true, ..next }
    } else {
        next
    }
}

/// Whether a key is the name of a file in the local directory.
pub open spec fn is_file_name(key: Seq<char>) -> bool {
    key.len() > 0 && key[0] != '.' && !key.contains('/') && !key.contains('\\')
}

/// Those of some objects that can be written to the local directory.
pub open spec fn writable(objects: Seq<Object>) -> Seq<Object>
    decreases objects.len(),
{
    if objects.len() == 0 {
        objects
    } else {
        let before = writable(objects.drop_last());
        if is_file_name(objects.last().0) {
            before.push(objects.last())
        } else {
            before
        }
    }
}

/// The objects of the newest shared entry.
pub open spec fn delivered(reply: EndingModel) -> Seq<Object> {
    match reply {
        EndingModel::Found(raw) => if pack::magic().is_prefix_of(raw) {
            writable(pack::unpacked(raw.skip(4)))
        } else {
            Seq::empty()
        },
        _ => Seq::empty(),
    }
}

/// The store after the newest shared entry was read.
pub open spec fn after_load_pack(m: StoreModel, reply: EndingModel) -> StoreModel {
    if m.remote {
        StoreModel { packed: with_all(m.packed, delivered(reply)), ..m }
    } else {
        m
    }
}

/// Those of some objects whose keys are among some keys.
pub open spec fn among(objects: Seq<Object>, keys: Set<Seq<char>>) -> Seq<Object>
    decreases objects.len(),
{
    if objects.len() == 0 {
        objects
    } else {
        let before = among(objects.drop_last(), keys);
        if keys.contains(objects.last().0) {
            before.push(objects.last())
        } else {
            before
        }
    }
}

/// The store after the queue was closed, given the newest shared entry. Where this job put small
/// objects, that entry is taken over, but the objects that this job put win over those in it.
pub open spec fn after_flush(m: StoreModel, newest: EndingModel) -> StoreModel {
    if m.remote && m.pack_dirty {
        StoreModel {
            packed: with_all(after_load_pack(m, newest).packed, among(m.packed, m.queued)),
            closed: true,
            ..m
        }
    } else {
        StoreModel { closed: true, ..m }
    }
}

/// Whether an upload ended with the object in the service. A declined reservation means a
/// concurrent job wrote the same key first, which is the outcome we wanted anyway, so it belongs in
/// the manifest either way.
pub open spec fn confirmed(reply: EndingModel) -> bool {
    reply is Stored || reply is Declined
}

/// The store after an upload.
pub open spec fn after_upload(m: StoreModel, key: Seq<char>, reply: EndingModel) -> StoreModel {
    if confirmed(reply) {
        StoreModel { index: m.index.insert(key), dirty: m.dirty || !m.index.contains(key), ..m }
    } else {
        m
    }
}

/// The counters after an upload of some length.
pub open spec fn counted(s: Summary, len: u64, reply: EndingModel) -> Summary {
    match reply {
        EndingModel::Stored => stats::counted_upload(s, len, true),
        EndingModel::Failed(_) | EndingModel::Unconfirmed => stats::counted_upload(s, 0, false),
        _ => s,
    }
}

/// Whether an upload did not land.
pub open spec fn missed(reply: EndingModel) -> bool {
    reply is Failed || reply is Unconfirmed
}

/// Why an upload did not land.
pub open spec fn shortfall(reply: EndingModel) -> Seq<char> {
    match reply {
        EndingModel::Failed(e) => e,
        _ => "the cache service did not accept it"@,
    }
}

/// The counters after the upload of an entry that small objects share.
pub open spec fn counted_pack(
    s: Summary,
    objects: u64,
    bytes: u64,
    len: u64,
    reply: EndingModel,
) -> Summary {
    if reply is Stored {
        Summary { packed: objects, packed_bytes: bytes, ..counted(s, len, reply) }
    } else {
        counted(s, len, reply)
    }
}

/// How many bytes objects have together, as far as 64 bits can count.
pub open spec fn total(objects: Seq<Object>) -> nat
    decreases objects.len(),
{
    if objects.len() == 0 {
        0
    } else {
        let sum = total(objects.drop_last()) + objects.last().1.len();
        if sum <= u64::MAX {
            sum
        } else {
            u64::MAX as nat
        }
    }
}

/// Whether a list is that of a set of keys: ascending, each once.
pub open spec fn is_listing(list: Seq<Seq<char>>, keys: Set<Seq<char>>) -> bool {
    order::ascending(list) && list.to_set() == keys
}

/// The bytes of the manifest of some keys, one to a line.
pub open spec fn manifest_of(list: Seq<Seq<char>>) -> Seq<u8> {
    encode_utf8(text::join(list, "\n"@))
}

/// What there is to say about a number of objects.
pub open spec fn counted_note(before: Seq<char>, n: nat, after: Seq<char>) -> Seq<char> {
    before + numbers::decimal(n) + after
}

impl Store {
    /// What the store holds.
    pub closed spec fn view(&self) -> StoreModel {
        StoreModel {
            remote: self.remote,
            misses: keys::key_set(self.remote_misses),
            queued: keys::key_set(self.queued),
            index: keys::key_set(self.index),
            prefix: self.key_prefix@,
            dirty: self.index_dirty,
            closed: self.closed,
            threshold: self.pack_threshold as nat,
            packed: pack::objects_of(self.packed@),
            pack_dirty: self.pack_dirty,
        }
    }

    /// A store at the start of a job, with or without a cache service behind it. Objects below the
    /// threshold share an entry.
    pub fn new(remote: bool, key_prefix: String, pack_threshold: u64) -> (out: Self)
        ensures
            out@ == empty_store(remote, key_prefix@, pack_threshold as nat),
    {
        let out = Store {
            remote,
            remote_misses: keys::no_keys(),
            queued: keys::no_keys(),
            index: keys::no_keys(),
            key_prefix,
            index_dirty: false,
            closed: false,
            pack_threshold,
            packed: Vec::new(),
            pack_dirty: false,
        };
        assert(out@.packed =~= Seq::empty());
        assert(out@.misses =~= Set::empty());
        assert(out@.queued =~= Set::empty());
        assert(out@.index =~= Set::empty());
        out
    }

    /// Prefix the manifest is filed under.
    pub fn key_prefix(&self) -> (out: &str)
        ensures
            out@ == self@.prefix,
    {
        self.key_prefix.as_str()
    }

    /// Takes over the manifest, and says what came of reading it. Once, before any traffic is
    /// served.
    pub fn load_index(&mut self, reply: &Ending) -> (note: Option<String>)
        ensures
            final(self)@ == after_load(old(self)@, reply@),
            note is Some == old(self)@.remote,
            note matches Some(s) ==> s@ == (match reply@ {
                EndingModel::Found(_) => counted_note(
                    "cicache: cache holds "@,
                    final(self)@.index.len(),
                    " objects"@,
                ),
                EndingModel::Failed(e) => "cicache: could not read the manifest: "@ + e,
                _ => "cicache: no manifest yet; this run will build one"@,
            }),
    {
        if !self.remote {
            return None;
        }
        match reply {
            Ending::Found(raw) => {
                let content = wire::lossy_text(wire::as_slice(raw));
                let chars = text::to_chars(content.as_str());
                let lines = text::lines_of(chars.as_slice());
                let ghost all = text::runs(lines@);
                let ghost had = self@;
                let mut i: usize = 0;
                while i < lines.len()
                    invariant
                        i <= lines.len(),
                        all == text::runs(lines@),
                        self@ == (StoreModel { index: self@.index, ..had }),
                        forall|key: Seq<char>| #[trigger]
                            self@.index.contains(key) == (had.index.contains(key) || (all.take(
                                i as int,
                            ).contains(key) && !text::blank(key))),
                    decreases lines.len() - i,
                {
                    let ghost before = self@.index;
                    let ghost done = all.take(i as int);
                    let ghost next = all.take(i + 1);
                    let ghost line = lines@[i as int]@;
                    proof {
                        assert(next =~= done.push(line));
                        assert forall|key: Seq<char>| #[trigger]
                            next.contains(key) == (done.contains(key) || key == line) by {
                            if done.contains(key) {
                                assert(next[done.index_of(key)] == key);
                            }
                            if key == line {
                                assert(next[i as int] == key);
                            }
                        }
                    }
                    if !text::is_blank(lines[i].as_slice()) {
                        let key = text::from_chars(lines[i].as_slice());
                        let _ = keys::insert(&mut self.index, key);
                        assert(self@.index == before.insert(line));
                    }
                    i += 1;
                }
                proof {
                    assert(all.take(i as int) =~= all);
                    assert(all == text::lines(wire::lossy(wire::content(*raw))));
                    assert(self@.index =~= had.index.union(listed(wire::content(*raw))));
                }
                let n = keys::count(&self.index);
                let mut note = "cicache: cache holds ".to_string();
                numbers::push_decimal(&mut note, n as u128);
                note.append(" objects");
                Some(note)
            },
            Ending::Failed(err) => Some(
                text::concat("cicache: could not read the manifest: ", err.as_str()),
            ),
            _ => Some("cicache: no manifest yet; this run will build one".to_string()),
        }
    }

    /// Where an object is to be had, given what the local directory has of it.
    pub fn get(&self, key: &str, local: Option<Bytes>) -> (out: Lookup)
        ensures
            out == lookup(self@, key@, local),
    {
        if let Some(bytes) = local {
            return Lookup::Found(bytes);
        }
        if !self.remote {
            return Lookup::Absent;
        }
        if !keys::contains(&self.index, key) {
            return Lookup::Absent;
        }
        if keys::contains(&self.remote_misses, key) {
            return Lookup::Absent;
        }
        Lookup::Ask
    }

    /// Takes note of what the service had of an object. Returns the object where it had it, which is
    /// then to be written to the local directory, and what there is to say.
    pub fn asked(&mut self, key: &str, reply: Ending) -> (out: (Option<Bytes>, Option<String>))
        ensures
            final(self)@ == after_ask(old(self)@, key@, reply@),
            out.0 == (match reply {
                Ending::Found(b) => Some(b),
                _ => None,
            }),
            out.1 is Some == reply is Failed,
            out.1 matches Some(note) ==> note@ == "cicache: cache lookup for "@ + key@ + " failed: "@
                + reply@->Failed_0,
    {
        match reply {
            Ending::Found(bytes) => (Some(bytes), None),
            Ending::Failed(err) => {
                let note = text::concat3("cicache: cache lookup for ", key, " failed: ");
                let note = text::concat(note.as_str(), err.as_str());
                let _ = keys::insert(&mut self.remote_misses, key.to_string());
                (None, Some(note))
            },
            _ => {
                let _ = keys::insert(&mut self.remote_misses, key.to_string());
                (None, None)
            },
        }
    }

    /// Decides what is to be done with an object, and keeps it for the shared entry where it is small.
    pub fn put(&mut self, key: &str, bytes: &Bytes) -> (out: Put)
        ensures
            out == plan(old(self)@, key@, wire::content(*bytes).len()),
            final(self)@ == after_put(old(self)@, key@, wire::content(*bytes)),
    {
        if !keys::insert(&mut self.queued, key.to_string()) {
            return Put::Skip;
        }
        if !self.remote || self.closed {
            return Put::Keep;
        }
        if (wire::as_slice(bytes).len() as u64) < self.pack_threshold {
            put_object(&mut self.packed, key, bytes);
            self.pack_dirty = true;
            Put::Pack
        } else {
            Put::Queue
        }
    }

    /// Takes over the objects of the newest shared entry, and says what came of reading it. Returns
    /// those that are to be written to the local directory. Once, before any traffic is served.
    pub fn load_pack(&mut self, reply: &Ending) -> (out: (Vec<(String, Bytes)>, Option<String>))
        ensures
            final(self)@ == after_load_pack(old(self)@, reply@),
            pack::objects_of(out.0@) == if old(self)@.remote {
                delivered(reply@)
            } else {
                Seq::empty()
            },
            out.1 is Some == (old(self)@.remote && match reply@ {
                EndingModel::Found(raw) => !pack::magic().is_prefix_of(raw),
                EndingModel::Failed(_) => true,
                _ => false,
            }),
            out.1 matches Some(note) ==> note@ == "cicache: could not read the packed objects: "@
                + match reply@ {
                EndingModel::Failed(e) => e,
                _ => "not a pack"@,
            },
    {
        let mut found: Vec<(String, Bytes)> = Vec::new();
        assert(pack::objects_of(found@) =~= Seq::empty());
        if !self.remote {
            return (found, None);
        }
        match reply {
            Ending::Found(raw) => match pack::decode(raw) {
                Ok(objects) => {
                    let ghost all = pack::objects_of(objects@);
                    let ghost had = self@;
                    let mut i: usize = 0;
                    assert(all.take(0) =~= Seq::empty());
                    while i < objects.len()
                        invariant
                            i <= objects.len(),
                            all == pack::objects_of(objects@),
                            pack::objects_of(found@) == writable(all.take(i as int)),
                            self@ == (StoreModel {
                                packed: with_all(had.packed, writable(all.take(i as int))),
                                ..had
                            }),
                        decreases objects.len() - i,
                    {
                        let (key, body) = (&objects[i].0, &objects[i].1);
                        let ghost o: Object = (key@, wire::content(*body));
                        let ghost before = writable(all.take(i as int));
                        assert(all.take(i + 1).drop_last() =~= all.take(i as int));
                        assert(all.take(i + 1).last() == o);
                        if names_a_file(key.as_str()) {
                            put_object(&mut self.packed, key.as_str(), body);
                            found.push((key.as_str().to_string(), wire::shared(body)));
                            assert(pack::objects_of(found@) =~= before.push(o));
                            assert(before.push(o).drop_last() =~= before);
                        }
                        i += 1;
                    }
                    assert(all.take(i as int) =~= all);
                    (found, None)
                },
                Err(_) => (
                    found,
                    Some(text::concat("cicache: could not read the packed objects: ", "not a pack")),
                ),
            },
            Ending::Failed(err) => (
                found,
                Some(text::concat("cicache: could not read the packed objects: ", err.as_str())),
            ),
            _ => (found, None),
        }
    }

    /// Takes note of how an upload ended, and returns what there is to say about it.
    pub fn uploaded(&mut self, stats: &mut Stats, key: String, len: u64, reply: Ending) -> (note:
        Option<String>)
        ensures
            final(self)@ == after_upload(old(self)@, key@, reply@),
            final(stats)@ == counted(old(stats)@, len, reply@),
            note is Some == missed(reply@),
            note matches Some(s) ==> s@ == "cicache: storing "@ + key@ + " failed: "@ + shortfall(
                reply@,
            ),
    {
        match reply {
            Ending::Stored => {
                stats.record_upload(len, true);
                if keys::insert(&mut self.index, key) {
                    self.index_dirty = true;
                }
                None
            },
            Ending::Declined => {
                if keys::insert(&mut self.index, key) {
                    self.index_dirty = true;
                }
                None
            },
            Ending::Failed(err) => {
                stats.record_upload(0, false);
                let note = text::concat3("cicache: storing ", key.as_str(), " failed: ");
                Some(text::concat(note.as_str(), err.as_str()))
            },
            Ending::Unconfirmed => {
                stats.record_upload(0, false);
                let note = text::concat3("cicache: storing ", key.as_str(), " failed: ");
                Some(text::concat(note.as_str(), "the cache service did not accept it"))
            },
            _ => None,
        }
    }

    /// Closes the queue: what is put from now on is kept in the local directory only.
    pub fn close(&mut self)
        ensures
            final(self)@ == (StoreModel { closed: true, ..old(self)@ }),
    {
        self.closed = true;
    }

    /// Whether this job put objects into the shared entry, which is then to be written.
    pub fn needs_packing(&self) -> (out: bool)
        ensures
            out == (self@.remote && self@.pack_dirty),
    {
        self.remote && self.pack_dirty
    }

    /// Closes the queue, and returns the entry that the small objects share where this job put any.
    /// Called by the teardown step, which is where the cost of writing entries is paid.
    ///
    /// The newest shared entry is taken over first, so concurrent jobs do not drop each other's
    /// objects. Where both put an object under one key, that of this job is kept.
    pub fn flush(&mut self, newest: &Ending) -> (out: Option<Parcel>)
        ensures
            final(self)@ == after_flush(old(self)@, newest@),
            out is Some == (old(self)@.remote && old(self)@.pack_dirty),
            out matches Some(p) ==> wire::content(p.body) == pack::container(
                pack::kept(final(self)@.packed, u64::MAX as nat),
            ) && p.count == final(self)@.packed.len() && p.bytes == total(final(self)@.packed),
    {
        self.close();
        if !self.remote || !self.pack_dirty {
            return None;
        }
        let ghost had = self@;
        let ghost all = self@.packed;
        let mut own: Vec<(String, Bytes)> = Vec::new();
        let mut i: usize = 0;
        assert(pack::objects_of(own@) =~= among(all.take(0), had.queued));
        while i < self.packed.len()
            invariant
                i <= self.packed.len(),
                self@ == had,
                all == had.packed,
                pack::objects_of(own@) == among(all.take(i as int), had.queued),
            decreases self.packed.len() - i,
        {
            let ghost before = pack::objects_of(own@);
            assert(all.take(i + 1).drop_last() =~= all.take(i as int));
            assert(all.take(i + 1).last() == all[i as int]);
            let (key, body) = (&self.packed[i].0, &self.packed[i].1);
            if keys::contains(&self.queued, key.as_str()) {
                own.push((key.as_str().to_string(), wire::shared(body)));
                assert(pack::objects_of(own@) =~= before.push(all[i as int]));
            }
            i += 1;
        }
        assert(all.take(i as int) =~= all);
        let _ = self.load_pack(newest);
        let ghost taken = self@;
        let ghost mine = pack::objects_of(own@);
        let mut i: usize = 0;
        assert(mine.take(0) =~= Seq::empty());
        while i < own.len()
            invariant
                i <= own.len(),
                mine == pack::objects_of(own@),
                self@ == (StoreModel {
                    packed: with_all(taken.packed, mine.take(i as int)),
                    ..taken
                }),
            decreases own.len() - i,
        {
            assert(mine.take(i + 1).drop_last() =~= mine.take(i as int));
            assert(mine.take(i + 1).last() == mine[i as int]);
            put_object(&mut self.packed, own[i].0.as_str(), &own[i].1);
            i += 1;
        }
        assert(mine.take(i as int) =~= mine);
        let body = pack::encode(self.packed.as_slice(), u64::MAX);
        Some(Parcel { body, count: self.packed.len(), bytes: total_bytes(self.packed.as_slice()) })
    }

    /// Whether there is anything to say in the manifest that it does not record yet.
    pub fn needs_saving(&self) -> (out: bool)
        ensures
            out == (self@.remote && self@.dirty),
    {
        self.remote && self.index_dirty
    }

    /// Takes over the newest manifest, and returns the one to write back: what was already known,
    /// plus what that manifest lists, plus what this job added. Merging rather than replacing means
    /// concurrent jobs do not drop each other's entries. There is none to write where nothing was
    /// learned.
    ///
    /// Objects a concurrent job stored first are in the cache just as surely as the ones this job
    /// uploaded, and they are exactly what a later run needs told about.
    pub fn save_index(&mut self, newest: &Ending) -> (out: Option<Manifest>)
        ensures
            final(self)@ == after_load(old(self)@, newest@),
            out is Some == (old(self)@.remote && old(self)@.dirty),
            out matches Some(m) ==> exists|list: Seq<Seq<char>>| #[trigger]
                is_listing(list, final(self)@.index) && wire::content(m.body) == manifest_of(list)
                    && m.count == list.len(),
    {
        let _ = self.load_index(newest);
        if !self.remote || !self.index_dirty {
            return None;
        }
        let sorted = order::sorted(keys::all(&self.index));
        assert(is_listing(text::texts(sorted@), self@.index));
        let joined = text::joined(sorted.as_slice(), "\n");
        let mut body: Vec<u8> = Vec::new();
        wire::push_all(&mut body, wire::text_bytes(joined.as_str()));
        assert(body@ =~= manifest_of(text::texts(sorted@)));
        Some(Manifest { body: wire::from_vec(body), count: sorted.len() })
    }
}

/// Puts an object into a list, in place of those under its key.
fn put_object(objects: &mut Vec<(String, Bytes)>, key: &str, body: &Bytes)
    ensures
        pack::objects_of(final(objects)@) == with(
            pack::objects_of(old(objects)@),
            (key@, wire::content(*body)),
        ),
{
    let ghost was = pack::objects_of(objects@);
    let ghost o: Object = (key@, wire::content(*body));
    let mut kept: Vec<(String, Bytes)> = Vec::new();
    let mut found = false;
    let mut i: usize = 0;
    while i < objects.len()
        invariant
            i <= objects.len(),
            was == pack::objects_of(objects@),
            !found ==> without(was.take(i as int), key@) == was.take(i as int),
        decreases objects.len() - i,
    {
        if text::same_text(objects[i].0.as_str(), key) {
            found = true;
        }
        proof {
            assert(was.take(i + 1).drop_last() =~= was.take(i as int));
            assert(was.take(i + 1).last().0 == objects@[i as int].0@);
            assert(was.take(i as int).push(was[i as int]) =~= was.take(i + 1));
        }
        i += 1;
    }
    assert(was.take(i as int) =~= was);
    if !found {
        objects.push((key.to_string(), wire::shared(body)));
        assert(pack::objects_of(objects@) =~= was.push(o));
        return;
    }
    let mut i: usize = 0;
    assert(pack::objects_of(kept@) =~= without(was.take(0), key@));
    while i < objects.len()
        invariant
            i <= objects.len(),
            was == pack::objects_of(objects@),
            pack::objects_of(kept@) == without(was.take(i as int), key@),
        decreases objects.len() - i,
    {
        let ghost before = pack::objects_of(kept@);
        assert(was.take(i + 1).drop_last() =~= was.take(i as int));
        assert(was.take(i + 1).last() == was[i as int]);
        if !text::same_text(objects[i].0.as_str(), key) {
            kept.push((objects[i].0.as_str().to_string(), wire::shared(&objects[i].1)));
            assert(pack::objects_of(kept@) =~= before.push(was[i as int]));
        }
        i += 1;
    }
    assert(was.take(i as int) =~= was);
    let ghost before = pack::objects_of(kept@);
    kept.push((key.to_string(), wire::shared(body)));
    assert(pack::objects_of(kept@) =~= before.push(o));
    *objects = kept;
}

/// Whether a key is the name of a file in the local directory.
fn names_a_file(key: &str) -> (out: bool)
    ensures
        out == is_file_name(key@),
{
    let chars = text::to_chars(key);
    if chars.len() == 0 || chars[0] == '.' {
        return false;
    }
    let mut i: usize = 0;
    while i < chars.len()
        invariant
            i <= chars.len(),
            chars@ == key@,
            forall|j: int| 0 <= j < i ==> #[trigger] chars@[j] != '/' && chars@[j] != '\\',
        decreases chars.len() - i,
    {
        if chars[i] == '/' || chars[i] == '\\' {
            assert(key@.contains(chars@[i as int]));
            return false;
        }
        i += 1;
    }
    true
}

/// How many bytes objects have together, as far as 64 bits can count.
fn total_bytes(objects: &[(String, Bytes)]) -> (out: u64)
    ensures
        out == total(pack::objects_of(objects@)),
{
    let ghost all = pack::objects_of(objects@);
    let mut out: u64 = 0;
    let mut i: usize = 0;
    while i < objects.len()
        invariant
            i <= objects.len(),
            all == pack::objects_of(objects@),
            out == total(all.take(i as int)),
        decreases objects.len() - i,
    {
        let len: u64 = wire::as_slice(&objects[i].1).len() as u64;
        assert(all.take(i + 1).drop_last() =~= all.take(i as int));
        assert(all.take(i + 1).last() == all[i as int]);
        if len <= u64::MAX - out {
            out = out + len;
        } else {
            out = u64::MAX;
        }
        i += 1;
    }
    assert(all.take(i as int) =~= all);
    out
}

/// Takes note of how the upload of the shared entry ended, and returns what there is to say about it.
pub fn parcel_uploaded(stats: &mut Stats, count: usize, bytes: u64, len: u64, reply: &Ending) -> (note:
    Option<String>)
    ensures
        final(stats)@ == counted_pack(old(stats)@, count as u64, bytes, len, reply@),
        note is Some == missed(reply@),
        note matches Some(s) ==> s@ == "cicache: storing the packed objects failed: "@ + shortfall(
            reply@,
        ),
{
    match reply {
        Ending::Stored => {
            stats.record_upload(len, true);
            stats.record_packed(count as u64, bytes);
            None
        },
        Ending::Failed(err) => {
            stats.record_upload(0, false);
            Some(text::concat("cicache: storing the packed objects failed: ", err.as_str()))
        },
        Ending::Unconfirmed => {
            stats.record_upload(0, false);
            Some(
                text::concat(
                    "cicache: storing the packed objects failed: ",
                    "the cache service did not accept it",
                ),
            )
        },
        _ => None,
    }
}

/// What there is to say about a manifest of so many objects that was to be written.
pub fn manifest_note(count: usize, reply: &Ending) -> (note: Option<String>)
    ensures
        note is Some == (reply is Stored || reply is Failed),
        note matches Some(s) ==> s@ == (match reply@ {
            EndingModel::Failed(e) => "cicache: could not write the manifest: "@ + e,
            _ => counted_note("cicache: manifest now lists "@, count as nat, " objects"@),
        }),
{
    match reply {
        Ending::Stored => {
            let mut note = "cicache: manifest now lists ".to_string();
            numbers::push_decimal(&mut note, count as u128);
            note.append(" objects");
            Some(note)
        },
        Ending::Failed(err) => Some(
            text::concat("cicache: could not write the manifest: ", err.as_str()),
        ),
        _ => None,
    }
}

/// What there is to say about the uploads of a job.
pub fn flush_note(summary: &Summary) -> (note: Option<String>)
    ensures
        note is Some == (summary.entries_stored > 0 || summary.uploads_failed > 0),
        note matches Some(s) ==> s@ == "cicache: uploaded "@ + numbers::decimal(
            summary.entries_stored as nat,
        ) + " entries, "@ + numbers::decimal(summary.uploads_failed as nat) + " failed"@,
{
    if summary.entries_stored > 0 || summary.uploads_failed > 0 {
        let mut note = "cicache: uploaded ".to_string();
        numbers::push_decimal(&mut note, summary.entries_stored as u128);
        note.append(" entries, ");
        numbers::push_decimal(&mut note, summary.uploads_failed as u128);
        note.append(" failed");
        Some(note)
    } else {
        None
    }
}

/// How many uploads may run at once: what was asked for, and at least one.
pub fn permits(concurrency: usize) -> (out: usize)
    ensures
        out == if concurrency > 1 {
            concurrency as int
        } else {
            1
        },
{
    if concurrency > 1 {
        concurrency
    } else {
        1
    }
}

/// The service is only asked for keys that it is known to hold, and never for an object that the
/// local directory has: a URL fetched twice in one job costs one round trip.
pub proof fn law_only_known_keys_are_asked_for(m: StoreModel, key: Seq<char>, local: Option<Bytes>)
    ensures
        lookup(m, key, local) is Ask ==> m.remote && m.index.contains(key),
        local matches Some(b) ==> lookup(m, key, local) == Lookup::Found(b),
{
}

/// An object that the service turned out not to have is not asked for again.
pub proof fn law_known_misses_are_not_asked_for_again(
    m: StoreModel,
    key: Seq<char>,
    reply: EndingModel,
    local: Option<Bytes>,
)
    requires
        !(reply is Found),
    ensures
        !(lookup(after_ask(m, key, reply), key, local) is Ask),
{
}

/// What is learned of one key changes nothing about the lookup of another.
pub proof fn law_lookups_are_independent(
    m: StoreModel,
    key: Seq<char>,
    other: Seq<char>,
    body: Seq<u8>,
    reply: EndingModel,
    local: Option<Bytes>,
)
    requires
        key != other,
    ensures
        lookup(after_ask(m, key, reply), other, local) == lookup(m, other, local),
        lookup(after_put(m, key, body), other, local) == lookup(m, other, local),
        lookup(after_upload(m, key, reply), other, local) == lookup(m, other, local),
{
}

/// An object is queued at most once: once put, it is skipped.
pub proof fn law_objects_are_stored_once(m: StoreModel, key: Seq<char>, body: Seq<u8>, len: nat)
    ensures
        plan(after_put(m, key, body), key, len) is Skip,
{
}

/// An upload and how it ended.
pub type Upload = (Seq<char>, EndingModel);

/// The store after several uploads.
pub open spec fn after_uploads(m: StoreModel, uploads: Seq<Upload>) -> StoreModel
    decreases uploads.len(),
{
    if uploads.len() == 0 {
        m
    } else {
        after_upload(after_uploads(m, uploads.drop_last()), uploads.last().0, uploads.last().1)
    }
}

/// Whether one of several uploads confirmed a key.
pub open spec fn confirms(uploads: Seq<Upload>, key: Seq<char>) -> bool {
    exists|i: int|
        0 <= i < uploads.len() && (#[trigger] uploads[i]).0 == key && confirmed(uploads[i].1)
}

/// The manifest lists what was read plus what was confirmed, and nothing else: whatever the
/// uploads of a job and their order, nothing that was read is dropped, and nothing that failed to
/// upload is advertised. It is written exactly where it would say something new.
pub proof fn law_the_manifest_is_what_was_read_plus_what_was_confirmed(
    m: StoreModel,
    uploads: Seq<Upload>,
)
    ensures
        forall|key: Seq<char>| #[trigger]
            after_uploads(m, uploads).index.contains(key) <==> m.index.contains(key) || confirms(
                uploads,
                key,
            ),
        after_uploads(m, uploads).dirty <==> m.dirty || after_uploads(m, uploads).index != m.index,
        after_uploads(m, uploads) == (StoreModel {
            index: after_uploads(m, uploads).index,
            dirty: after_uploads(m, uploads).dirty,
            ..m
        }),
    decreases uploads.len(),
{
    if uploads.len() > 0 {
        let front = uploads.drop_last();
        law_the_manifest_is_what_was_read_plus_what_was_confirmed(m, front);
        let before = after_uploads(m, front);
        let now = after_uploads(m, uploads);
        let (last, reply) = uploads.last();
        assert forall|key: Seq<char>| #[trigger] now.index.contains(key) <==> m.index.contains(key)
            || confirms(uploads, key) by {
            if confirms(front, key) {
                let i = choose|i: int|
                    0 <= i < front.len() && (#[trigger] front[i]).0 == key && confirmed(front[i].1);
                assert(uploads[i] == front[i]);
            }
            if confirms(uploads, key) {
                let i = choose|i: int|
                    0 <= i < uploads.len() && (#[trigger] uploads[i]).0 == key && confirmed(
                        uploads[i].1,
                    );
                if i < front.len() {
                    assert(front[i] == uploads[i]);
                }
            }
            if key == last && confirmed(reply) {
                assert(uploads[uploads.len() - 1].0 == key);
            }
        }
        assert(m.index.subset_of(before.index)) by {
            assert forall|key: Seq<char>| m.index.contains(key) implies before.index.contains(
                key,
            ) by {}
        }
        if confirmed(reply) {
            if before.index.contains(last) {
                assert(now.index =~= before.index);
            } else {
                assert(now.index.contains(last));
                assert(!m.index.contains(last));
            }
        }
    } else {
        assert forall|key: Seq<char>| !confirms(uploads, key) by {}
    }
}

/// A later job reads back the keys that a manifest was written for, provided that each is a line
/// that is not blank.
pub proof fn law_manifests_are_read_back(keys: Set<Seq<char>>, list: Seq<Seq<char>>)
    requires
        is_listing(list, keys),
        forall|key: Seq<char>| #[trigger]
            keys.contains(key) ==> text::is_line(key) && !text::blank(key),
    ensures
        listed(manifest_of(list)) == keys,
{
    reveal_strlit("\n");
    assert("\n"@ =~= seq!['\n']);
    assert forall|i: int| 0 <= i < list.len() implies text::is_line(#[trigger] list[i]) by {
        assert(list.to_set().contains(list[i]));
    }
    text::lemma_lines_join(list);
    let s = text::join(list, "\n"@);
    vstd::utf8::encode_utf8_valid_utf8(s);
    vstd::utf8::encode_utf8_decode_utf8(s);
    assert(wire::lossy(manifest_of(list)) == s);
    assert forall|key: Seq<char>| #[trigger] listed(manifest_of(list)).contains(key)
        == keys.contains(key) by {
        assert(list.to_set().contains(key) == list.contains(key));
    }
    assert(listed(manifest_of(list)) =~= keys);
}

/// Concurrent jobs do not drop each other's entries: a job that takes over the manifest that another
/// one wrote, as it does before it writes its own, lists what the other one listed and what it knows
/// itself, and nothing else.
pub proof fn law_concurrent_jobs_keep_each_others_entries(
    a: StoreModel,
    b: StoreModel,
    list: Seq<Seq<char>>,
)
    requires
        b.remote,
        is_listing(list, a.index),
        forall|key: Seq<char>| #[trigger]
            a.index.contains(key) ==> text::is_line(key) && !text::blank(key),
    ensures
        after_load(b, EndingModel::Found(manifest_of(list))) == (StoreModel {
            index: b.index.union(a.index),
            ..b
        }),
{
    law_manifests_are_read_back(a.index, list);
}

/// The keys of a policy whose prefix is one line can be listed in a manifest.
pub proof fn law_keys_can_be_listed(p: Policy, u: UrlModel)
    requires
        !p.key_prefix@.contains('\n'),
    ensures
        text::is_line(p.key_of(u)),
        !text::blank(p.key_of(u)),
{
    let key = p.key_of(u);
    let hashed = encode_utf8("GET\n"@) + encode_utf8(url::normalized(u));
    let hash = digest::sha256_hex(hashed);
    let n = p.key_prefix@.len();
    reveal_strlit("-");
    digest::lemma_digest_shape(hashed);
    assert(key.last() == hash[63]);
    assert(digest::is_hex_digit(hash[63]));
    assert(!text::is_white(key[key.len() - 1]));
    if key.contains('\n') {
        let i = key.index_of('\n');
        if i < n {
            assert(p.key_prefix@[i] == '\n');
        } else if i > n {
            assert(digest::is_hex_digit(hash[i - n - 1]));
        }
    }
}

/// There is one manifest for a set of keys.
pub proof fn law_one_manifest(keys: Set<Seq<char>>, a: Seq<Seq<char>>, b: Seq<Seq<char>>)
    requires
        is_listing(a, keys),
        is_listing(b, keys),
    ensures
        a == b,
        manifest_of(a) == manifest_of(b),
{
    order::law_one_ascending_list(a, b);
}

/// The store after several objects were put.
pub open spec fn after_puts(m: StoreModel, objects: Seq<Object>) -> StoreModel
    decreases objects.len(),
{
    if objects.len() == 0 {
        m
    } else {
        after_put(after_puts(m, objects.drop_last()), objects.last().0, objects.last().1)
    }
}

/// The objects below a threshold, in their order.
pub open spec fn small(objects: Seq<Object>, threshold: nat) -> Seq<Object>
    decreases objects.len(),
{
    if objects.len() == 0 {
        objects
    } else {
        let before = small(objects.drop_last(), threshold);
        if objects.last().1.len() < threshold {
            before.push(objects.last())
        } else {
            before
        }
    }
}

/// Whether objects have different keys.
pub open spec fn distinct(objects: Seq<Object>) -> bool {
    forall|i: int, j: int|
        0 <= i < j < objects.len() ==> (#[trigger] objects[i]).0 != (#[trigger] objects[j]).0
}

/// Whether none of some objects is under a key.
pub open spec fn lacks(objects: Seq<Object>, key: Seq<char>) -> bool {
    forall|i: int| 0 <= i < objects.len() ==> (#[trigger] objects[i]).0 != key
}

/// Where no object is under a key, all of them are left without it.
proof fn lemma_without_none(objects: Seq<Object>, key: Seq<char>)
    requires
        lacks(objects, key),
    ensures
        without(objects, key) == objects,
    decreases objects.len(),
{
    if objects.len() > 0 {
        let front = objects.drop_last();
        assert forall|i: int| 0 <= i < front.len() implies (#[trigger] front[i]).0 != key by {
            assert(front[i] == objects[i]);
        }
        lemma_without_none(front, key);
        assert(objects[objects.len() - 1].0 != key);
        assert(front.push(objects.last()) =~= objects);
    }
}

/// The small ones of some objects are among them.
proof fn lemma_small_lacks(objects: Seq<Object>, threshold: nat, key: Seq<char>)
    requires
        lacks(objects, key),
    ensures
        lacks(small(objects, threshold), key),
    decreases objects.len(),
{
    if objects.len() > 0 {
        let front = objects.drop_last();
        assert forall|i: int| 0 <= i < front.len() implies (#[trigger] front[i]).0 != key by {
            assert(front[i] == objects[i]);
        }
        lemma_small_lacks(front, threshold, key);
        assert(objects[objects.len() - 1].0 != key);
    }
}

/// What several puts leave behind.
proof fn lemma_after_puts(m: StoreModel, objects: Seq<Object>)
    requires
        m.remote && !m.closed,
        distinct(objects),
        forall|i: int|
            0 <= i < objects.len() ==> !m.queued.contains((#[trigger] objects[i]).0) && lacks(
                m.packed,
                objects[i].0,
            ),
    ensures
        after_puts(m, objects).packed == m.packed + small(objects, m.threshold),
        after_puts(m, objects).pack_dirty == (m.pack_dirty || small(objects, m.threshold).len() > 0),
        after_puts(m, objects) == (StoreModel {
            packed: after_puts(m, objects).packed,
            pack_dirty: after_puts(m, objects).pack_dirty,
            queued: after_puts(m, objects).queued,
            ..m
        }),
        forall|key: Seq<char>| #[trigger]
            after_puts(m, objects).queued.contains(key) <==> m.queued.contains(key) || !lacks(
                objects,
                key,
            ),
    decreases objects.len(),
{
    if objects.len() == 0 {
        assert(m.packed + small(objects, m.threshold) =~= m.packed);
        assert forall|key: Seq<char>| lacks(objects, key) by {}
    } else {
        let front = objects.drop_last();
        let o = objects.last();
        assert(o == objects[objects.len() - 1]);
        assert forall|i: int| 0 <= i < front.len() implies !m.queued.contains(
            (#[trigger] front[i]).0,
        ) && lacks(m.packed, front[i].0) by {
            assert(front[i] == objects[i]);
        }
        lemma_after_puts(m, front);
        let before = after_puts(m, front);
        assert(lacks(front, o.0)) by {
            assert forall|i: int| 0 <= i < front.len() implies (#[trigger] front[i]).0 != o.0 by {
                assert(front[i] == objects[i]);
            }
        }
        assert(!before.queued.contains(o.0));
        lemma_small_lacks(front, m.threshold, o.0);
        assert(lacks(before.packed, o.0)) by {
            assert forall|i: int| 0 <= i < before.packed.len() implies (
            #[trigger] before.packed[i]).0 != o.0 by {
                if i >= m.packed.len() {
                    assert(before.packed[i] == small(front, m.threshold)[i - m.packed.len()]);
                } else {
                    assert(before.packed[i] == m.packed[i]);
                }
            }
        }
        lemma_without_none(before.packed, o.0);
        if o.1.len() < m.threshold {
            assert(before.packed.push(o) =~= m.packed + small(objects, m.threshold));
        }
        assert forall|key: Seq<char>| #[trigger]
            after_puts(m, objects).queued.contains(key) <==> m.queued.contains(key) || !lacks(
                objects,
                key,
            ) by {
            if !lacks(front, key) {
                let i = choose|i: int| 0 <= i < front.len() && (#[trigger] front[i]).0 == key;
                assert(objects[i].0 == key);
            }
            if lacks(front, key) && key != o.0 {
                assert forall|i: int| 0 <= i < objects.len() implies (#[trigger] objects[i]).0
                    != key by {
                    if i < front.len() {
                        assert(front[i] == objects[i]);
                    }
                }
            }
        }
    }
}

/// Objects below the threshold share a single entry: whatever objects are put before the queue is
/// closed, the small ones, in their order, are what is added to the shared entry, none of them is
/// queued, and each of the others is queued as an entry of its own. A later job reads all the
/// objects of the shared entry back.
pub proof fn law_small_objects_share_an_entry(m: StoreModel, objects: Seq<Object>, i: int)
    requires
        m.remote && !m.closed,
        distinct(objects),
        forall|i: int|
            0 <= i < objects.len() ==> !m.queued.contains((#[trigger] objects[i]).0) && lacks(
                m.packed,
                objects[i].0,
            ),
        0 <= i < objects.len(),
    ensures
        after_puts(m, objects).packed == m.packed + small(objects, m.threshold),
        after_puts(m, objects).pack_dirty == (m.pack_dirty || small(objects, m.threshold).len() > 0),
        plan(after_puts(m, objects.take(i)), objects[i].0, objects[i].1.len())
            == if objects[i].1.len() < m.threshold {
            Put::Pack
        } else {
            Put::Queue
        },
{
    lemma_after_puts(m, objects);
    let front = objects.take(i);
    assert forall|j: int| 0 <= j < front.len() implies !m.queued.contains(
        (#[trigger] front[j]).0,
    ) && lacks(m.packed, front[j].0) by {
        assert(front[j] == objects[j]);
    }
    assert(distinct(front)) by {
        assert forall|j: int, k: int| 0 <= j < k < front.len() implies (#[trigger] front[j]).0 != (
        #[trigger] front[k]).0 by {
            assert(front[j] == objects[j] && front[k] == objects[k]);
        }
    }
    lemma_after_puts(m, front);
    assert(lacks(front, objects[i].0)) by {
        assert forall|j: int| 0 <= j < front.len() implies (#[trigger] front[j]).0
            != objects[i].0 by {
            assert(front[j] == objects[j]);
        }
    }
}

/// A later job is delivered all the objects of a shared entry whose keys are names of files, in
/// their order.
pub proof fn law_shared_entries_are_read_back(objects: Seq<Object>)
    requires
        pack::container(objects).len() <= u64::MAX,
        forall|i: int|
            0 <= i < objects.len() ==> pack::fits_record(#[trigger] objects[i]) && is_file_name(
                objects[i].0,
            ),
    ensures
        delivered(
            EndingModel::Found(pack::container(pack::kept(objects, u64::MAX as nat))),
        ) == objects,
{
    pack::law_round_trip(objects, u64::MAX as nat);
    pack::law_nothing_is_skipped_without_need(objects, u64::MAX as nat);
    lemma_all_writable(objects);
}

/// An object is left without those under another key.
proof fn lemma_without_keeps(objects: Seq<Object>, key: Seq<char>, o: Object)
    requires
        objects.contains(o),
        o.0 != key,
    ensures
        without(objects, key).contains(o),
    decreases objects.len(),
{
    let front = objects.drop_last();
    let before = without(front, key);
    if objects.last() == o {
        assert(before.push(o)[before.len() as int] == o);
    } else {
        let i = objects.index_of(o);
        assert(front[i] == o);
        lemma_without_keeps(front, key, o);
        let j = before.index_of(o);
        assert(before.push(objects.last())[j] == o);
    }
}

/// What is left without the objects under a key is none of them, and was there before.
proof fn lemma_without_only(objects: Seq<Object>, key: Seq<char>)
    ensures
        lacks(without(objects, key), key),
        forall|other: Seq<char>| lacks(objects, other) ==> #[trigger] lacks(
            without(objects, key),
            other,
        ),
        distinct(objects) ==> distinct(without(objects, key)),
    decreases objects.len(),
{
    if objects.len() > 0 {
        let before = without(objects.drop_last(), key);
        lemma_without_only(objects.drop_last(), key);
        lemma_front(objects);
        lemma_pushed(before, objects.last());
        assert forall|other: Seq<char>| lacks(objects, other) implies #[trigger] lacks(
            without(objects, key),
            other,
        ) by {
            assert(lacks(before, other));
        }
    }
}

/// What lacks a key or has different keys does so with one more object under yet another key.
proof fn lemma_pushed(objects: Seq<Object>, o: Object)
    ensures
        forall|key: Seq<char>|
            lacks(objects, key) && key != o.0 ==> #[trigger] lacks(objects.push(o), key),
        distinct(objects) && lacks(objects, o.0) ==> distinct(objects.push(o)),
{
    let all = objects.push(o);
    if distinct(objects) && lacks(objects, o.0) {
        assert forall|i: int, j: int| 0 <= i < j < all.len() implies (#[trigger] all[i]).0 != (
        #[trigger] all[j]).0 by {
            assert(all[i] == objects[i]);
            if j < objects.len() {
                assert(all[j] == objects[j]);
            }
        }
    }
}

/// What lacks a key or has different keys does so without its last object.
proof fn lemma_front(objects: Seq<Object>)
    requires
        objects.len() > 0,
    ensures
        forall|key: Seq<char>| #[trigger]
            lacks(objects, key) <==> lacks(objects.drop_last(), key) && objects.last().0 != key,
        distinct(objects) ==> distinct(objects.drop_last()) && lacks(
            objects.drop_last(),
            objects.last().0,
        ),
{
    let front = objects.drop_last();
    assert forall|key: Seq<char>| #[trigger] lacks(objects, key) <==> lacks(front, key)
        && objects.last().0 != key by {
        if lacks(objects, key) {
            assert forall|i: int| 0 <= i < front.len() implies (#[trigger] front[i]).0 != key by {
                assert(front[i] == objects[i]);
            }
            assert(objects[objects.len() - 1].0 != key);
        }
        if lacks(front, key) && objects.last().0 != key {
            assert forall|i: int| 0 <= i < objects.len() implies (#[trigger] objects[i]).0 != key by {
                if i < front.len() {
                    assert(front[i] == objects[i]);
                }
            }
        }
    }
    if distinct(objects) {
        assert forall|i: int, j: int| 0 <= i < j < front.len() implies (#[trigger] front[i]).0 != (
        #[trigger] front[j]).0 by {
            assert(front[i] == objects[i] && front[j] == objects[j]);
        }
        assert forall|i: int| 0 <= i < front.len() implies (#[trigger] front[i]).0
            != objects.last().0 by {
            assert(front[i] == objects[i]);
            assert(objects[i].0 != objects[objects.len() - 1].0);
        }
    }
}

/// Different keys stay different when objects are added.
proof fn lemma_with_all_distinct(objects: Seq<Object>, more: Seq<Object>)
    requires
        distinct(objects),
    ensures
        distinct(with_all(objects, more)),
    decreases more.len(),
{
    if more.len() > 0 {
        let before = with_all(objects, more.drop_last());
        lemma_with_all_distinct(objects, more.drop_last());
        lemma_without_only(before, more.last().0);
    }
}

/// An object stays when others are added under other keys.
proof fn lemma_with_all_keeps(objects: Seq<Object>, more: Seq<Object>, o: Object)
    requires
        objects.contains(o),
        lacks(more, o.0),
    ensures
        with_all(objects, more).contains(o),
    decreases more.len(),
{
    if more.len() > 0 {
        let before = with_all(objects, more.drop_last());
        lemma_front(more);
        lemma_with_all_keeps(objects, more.drop_last(), o);
        lemma_without_keeps(before, more.last().0, o);
        let left = without(before, more.last().0);
        assert(left.push(more.last())[left.index_of(o)] == o);
    }
}

/// Objects under different keys are all there once they were added.
proof fn lemma_with_all_adds(objects: Seq<Object>, more: Seq<Object>, o: Object)
    requires
        distinct(more),
        more.contains(o),
    ensures
        with_all(objects, more).contains(o),
    decreases more.len(),
{
    let front = more.drop_last();
    let before = with_all(objects, front);
    let left = without(before, more.last().0);
    lemma_front(more);
    if more.last() == o {
        assert(left.push(o)[left.len() as int] == o);
    } else {
        let i = more.index_of(o);
        assert(front[i] == o);
        lemma_with_all_adds(objects, front, o);
        lemma_without_keeps(before, more.last().0, o);
        assert(left.push(more.last())[left.index_of(o)] == o);
    }
}

/// Those of some objects whose keys are among some keys are exactly these.
proof fn lemma_among(objects: Seq<Object>, keys: Set<Seq<char>>)
    ensures
        forall|o: Object|
            objects.contains(o) && keys.contains(o.0) ==> #[trigger] among(objects, keys).contains(o),
        forall|key: Seq<char>|
            lacks(objects, key) || !keys.contains(key) ==> #[trigger] lacks(
                among(objects, keys),
                key,
            ),
        distinct(objects) ==> distinct(among(objects, keys)),
    decreases objects.len(),
{
    if objects.len() > 0 {
        let front = objects.drop_last();
        let before = among(front, keys);
        lemma_among(front, keys);
        lemma_front(objects);
        lemma_pushed(before, objects.last());
        assert forall|key: Seq<char>| lacks(objects, key) || !keys.contains(
            key,
        ) implies #[trigger] lacks(among(objects, keys), key) by {
            assert(lacks(before, key));
        }
        assert forall|o: Object| objects.contains(o) && keys.contains(o.0) implies #[trigger] among(
            objects,
            keys,
        ).contains(o) by {
            if o == objects.last() {
                assert(before.push(o)[before.len() as int] == o);
            } else {
                let i = objects.index_of(o);
                assert(front[i] == o);
                assert(before.contains(o));
                assert(before.push(objects.last())[before.index_of(o)] == o);
            }
        }
    }
}

/// No two of the objects that share an entry are under one key: there are none at the start of a
/// job, and whatever the store takes over or is given, their keys stay different.
pub proof fn law_shared_objects_have_different_keys(
    m: StoreModel,
    key: Seq<char>,
    body: Seq<u8>,
    reply: EndingModel,
)
    ensures
        distinct(empty_store(m.remote, m.prefix, m.threshold).packed),
        distinct(m.packed) ==> distinct(after_put(m, key, body).packed),
        distinct(m.packed) ==> distinct(after_load_pack(m, reply).packed),
        distinct(m.packed) ==> distinct(after_flush(m, reply).packed),
{
    if distinct(m.packed) {
        lemma_without_only(m.packed, key);
        lemma_with_all_distinct(m.packed, delivered(reply));
        if m.remote {
            lemma_with_all_distinct(
                after_load_pack(m, reply).packed,
                among(m.packed, m.queued),
            );
        }
    }
}

/// Concurrent jobs do not drop each other's objects: the shared entry that a job writes, after it took
/// over the one that another job wrote, has each object that the job put itself, each object of the
/// other one under a key that the job did not put, and each object that the job had read under a key
/// that is neither.
pub proof fn law_concurrent_jobs_keep_each_others_objects(
    a: StoreModel,
    b: StoreModel,
    o: Object,
)
    requires
        b.remote && b.pack_dirty,
        distinct(a.packed),
        distinct(b.packed),
        pack::container(a.packed).len() <= u64::MAX,
        forall|i: int|
            0 <= i < a.packed.len() ==> pack::fits_record(#[trigger] a.packed[i]) && is_file_name(
                a.packed[i].0,
            ),
    ensures
        ({
            let written = EndingModel::Found(pack::container(pack::kept(a.packed, u64::MAX as nat)));
            let merged = after_flush(b, written).packed;
            &&& b.packed.contains(o) && b.queued.contains(o.0) ==> merged.contains(o)
            &&& a.packed.contains(o) && !b.queued.contains(o.0) ==> merged.contains(o)
            &&& b.packed.contains(o) && lacks(a.packed, o.0) ==> merged.contains(o)
        }),
{
    let written = EndingModel::Found(pack::container(pack::kept(a.packed, u64::MAX as nat)));
    let own = among(b.packed, b.queued);
    let taken = after_load_pack(b, written).packed;
    law_shared_entries_are_read_back(a.packed);
    lemma_among(b.packed, b.queued);
    if b.packed.contains(o) && b.queued.contains(o.0) {
        lemma_with_all_adds(taken, own, o);
    } else if a.packed.contains(o) && !b.queued.contains(o.0) {
        lemma_with_all_adds(b.packed, a.packed, o);
        lemma_with_all_keeps(taken, own, o);
    } else if b.packed.contains(o) && lacks(a.packed, o.0) {
        lemma_with_all_keeps(b.packed, a.packed, o);
        lemma_with_all_keeps(taken, own, o);
    }
}

/// Where the keys of all objects are names of files, all of them can be written.
proof fn lemma_all_writable(objects: Seq<Object>)
    requires
        forall|i: int| 0 <= i < objects.len() ==> is_file_name((#[trigger] objects[i]).0),
    ensures
        writable(objects) == objects,
    decreases objects.len(),
{
    if objects.len() > 0 {
        let front = objects.drop_last();
        assert forall|i: int| 0 <= i < front.len() implies is_file_name((#[trigger] front[i]).0) by {
            assert(front[i] == objects[i]);
        }
        lemma_all_writable(front);
        assert(is_file_name(objects[objects.len() - 1].0));
        assert(front.push(objects.last()) =~= objects);
    }
}

/// An object that the local directory has is found there. The service is asked for one that it has
/// not, where there is a service that is known to hold the key and not known not to; any other is
/// nowhere.
pub proof fn law_where_objects_are_found(m: StoreModel, key: Seq<char>, b: Bytes)
    ensures
        lookup(m, key, Some(b)) == Lookup::Found(b),
        lookup(m, key, None) is Ask <==> m.remote && m.index.contains(key) && !m.misses.contains(
            key,
        ),
        lookup(m, key, None) is Absent <==> !(m.remote && m.index.contains(key)
            && !m.misses.contains(key)),
{
}

/// A manifest adds the keys on its lines that are not blank, and nothing else; what was known stays. A
/// manifest that is missing or could not be read changes nothing, and neither does one without a
/// service.
pub proof fn law_manifests_add_keys(m: StoreModel, reply: EndingModel, key: Seq<char>)
    ensures
        after_load(m, reply).index.contains(key) <==> m.index.contains(key) || (m.remote && (
        reply matches EndingModel::Found(raw) && text::lines(wire::lossy(raw)).contains(key)
            && exists|i: int| 0 <= i < key.len() && !text::is_white(#[trigger] key[i]))),
        after_load(m, reply) == (StoreModel { index: after_load(m, reply).index, ..m }),
{
    if let EndingModel::Found(raw) = reply {
        assert(text::blank(key) == !(exists|i: int|
            0 <= i < key.len() && !text::is_white(#[trigger] key[i])));
    }
}

/// An object that the service was asked for and did not have is remembered as a miss, and nothing else
/// changes; one that it had changes nothing.
pub proof fn law_misses_are_remembered(m: StoreModel, key: Seq<char>, reply: EndingModel)
    ensures
        reply is Found ==> after_ask(m, key, reply) == m,
        !(reply is Found) ==> after_ask(m, key, reply) == (StoreModel {
            misses: m.misses.insert(key),
            ..m
        }),
{
}

/// What is done with an object: nothing where it was put before; otherwise it is kept, and uploaded
/// too where there is a service and the queue is open, in the shared entry where it is shorter than
/// the threshold and as an entry of its own where it is not.
pub proof fn law_what_is_done_with_objects(m: StoreModel, key: Seq<char>, body: Seq<u8>)
    ensures
        ({
            let done = plan(m, key, body.len());
            let uploads = !m.queued.contains(key) && m.remote && !m.closed;
            &&& done is Skip <==> m.queued.contains(key)
            &&& done is Keep <==> !m.queued.contains(key) && (!m.remote || m.closed)
            &&& done is Pack <==> uploads && body.len() < m.threshold
            &&& done is Queue <==> uploads && body.len() >= m.threshold
            &&& done is Pack ==> after_put(m, key, body) == (StoreModel {
                queued: m.queued.insert(key),
                packed: with(m.packed, (key, body)),
                pack_dirty: true,
                ..m
            })
            &&& !(done is Pack) ==> after_put(m, key, body) == (StoreModel {
                queued: m.queued.insert(key),
                ..m
            })
        }),
{
}

/// An object is among those that it was put to, behind the others; those under other keys stay, in
/// their order, and one that was under its key is gone.
pub proof fn law_objects_replace_those_under_their_key(
    objects: Seq<Object>,
    last: Object,
    o: Object,
)
    ensures
        without(Seq::empty(), o.0).len() == 0,
        without(objects.push(last), o.0) == if last.0 == o.0 {
            without(objects, o.0)
        } else {
            without(objects, o.0).push(last)
        },
        with(objects, o) == without(objects, o.0).push(o),
        with_all(objects, Seq::empty()) == objects,
{
    assert(objects.push(last).drop_last() =~= objects);
}

/// Objects are put one by one, in their order.
pub proof fn law_objects_are_put_in_order(objects: Seq<Object>, more: Seq<Object>, o: Object)
    ensures
        with_all(objects, more.push(o)) == with(with_all(objects, more), o),
{
    assert(more.push(o).drop_last() =~= more);
}

/// A key is the name of a file where it is not empty, does not begin with a dot, and holds neither kind
/// of slash.
pub proof fn law_file_names(key: Seq<char>)
    ensures
        is_file_name(key) ==> key.len() > 0 && key[0] != '.' && forall|i: int|
            0 <= i < key.len() ==> #[trigger] key[i] != '/' && key[i] != '\\',
        key.len() == 0 ==> !is_file_name(key),
        key.len() > 0 && key[0] == '.' ==> !is_file_name(key),
        key.contains('/') || key.contains('\\') ==> !is_file_name(key),
        key.len() > 0 && key[0] != '.' && (forall|i: int|
            0 <= i < key.len() ==> #[trigger] key[i] != '/' && key[i] != '\\') ==> is_file_name(key),
{
    assert forall|i: int| is_file_name(key) && 0 <= i < key.len() implies #[trigger] key[i] != '/'
        && key[i] != '\\' by {
        assert(key.contains(key[i]));
    }
}

/// The objects that are delivered are those of the shared entry, in their order, that can be written;
/// without an entry that reads as one there are none.
pub proof fn law_what_is_delivered(
    reply: EndingModel,
    raw: Seq<u8>,
    objects: Seq<Object>,
    o: Object,
)
    ensures
        writable(Seq::empty()).len() == 0,
        writable(objects.push(o)) == if is_file_name(o.0) {
            writable(objects).push(o)
        } else {
            writable(objects)
        },
        !(reply is Found) ==> delivered(reply).len() == 0,
        pack::magic().is_prefix_of(raw) ==> delivered(EndingModel::Found(raw)) == writable(
            pack::unpacked(raw.skip(4)),
        ),
        !pack::magic().is_prefix_of(raw) ==> delivered(EndingModel::Found(raw)).len() == 0,
{
    assert(objects.push(o).drop_last() =~= objects);
}

/// What is delivered is put to the objects that share an entry, where there is a service; nothing else
/// changes.
pub proof fn law_delivered_objects_are_taken_over(m: StoreModel, reply: EndingModel)
    ensures
        m.remote ==> after_load_pack(m, reply) == (StoreModel {
            packed: with_all(m.packed, delivered(reply)),
            ..m
        }),
        !m.remote ==> after_load_pack(m, reply) == m,
        !(reply is Found) ==> after_load_pack(m, reply) == m,
{
}

/// The queue is closed, whatever there is to write; where this job put small objects, the newest shared
/// entry is taken over, and what this job put is put again behind it.
pub proof fn law_the_queue_is_closed(m: StoreModel, newest: EndingModel)
    ensures
        after_flush(m, newest).closed,
        after_flush(m, newest) == (StoreModel {
            closed: true,
            packed: after_flush(m, newest).packed,
            ..m
        }),
        !(m.remote && m.pack_dirty) ==> after_flush(m, newest).packed == m.packed,
        m.remote && m.pack_dirty ==> after_flush(m, newest).packed == with_all(
            with_all(m.packed, delivered(newest)),
            among(m.packed, m.queued),
        ),
{
}

/// The objects of some keys are those of them, in their order.
pub proof fn law_objects_of_some_keys(objects: Seq<Object>, o: Object, keys: Set<Seq<char>>)
    ensures
        among(Seq::empty(), keys).len() == 0,
        among(objects.push(o), keys) == if keys.contains(o.0) {
            among(objects, keys).push(o)
        } else {
            among(objects, keys)
        },
{
    assert(objects.push(o).drop_last() =~= objects);
}

/// A key is known to be held once its upload was stored, or was declined because another job had
/// stored it, and after no other ending; that it was not known before is worth a manifest.
pub proof fn law_what_uploads_teach(m: StoreModel, key: Seq<char>, reply: EndingModel)
    ensures
        ({
            let held = reply == EndingModel::Stored || reply == EndingModel::Declined;
            let after = after_upload(m, key, reply);
            &&& after == (StoreModel { index: after.index, dirty: after.dirty, ..m })
            &&& after.index == if held {
                m.index.insert(key)
            } else {
                m.index
            }
            &&& after.dirty <==> m.dirty || (held && !m.index.contains(key))
        }),
{
}

/// An upload that was stored is counted with its length; one that failed, or that the service did not
/// accept, is counted as failed, and said to have, with the reason; any other counts nothing and is
/// passed over.
pub proof fn law_how_uploads_are_counted(s: Summary, len: u64, reply: EndingModel)
    ensures
        reply is Stored ==> counted(s, len, reply) == (Summary {
            entries_stored: s.entries_stored.wrapping_add(1),
            bytes_uploaded: s.bytes_uploaded.wrapping_add(len),
            ..s
        }),
        reply is Failed || reply is Unconfirmed ==> counted(s, len, reply) == (Summary {
            uploads_failed: s.uploads_failed.wrapping_add(1),
            ..s
        }),
        reply is Missing || reply is Found || reply is Declined ==> counted(s, len, reply) == s,
        missed(reply) <==> reply is Failed || reply is Unconfirmed,
        reply matches EndingModel::Failed(e) ==> shortfall(reply) == e,
        reply is Unconfirmed ==> shortfall(reply) == "the cache service did not accept it"@,
{
}

/// The shared entry counts as one upload, and where it was stored what it carries is noted.
pub proof fn law_how_the_shared_entry_is_counted(
    s: Summary,
    objects: u64,
    bytes: u64,
    len: u64,
    reply: EndingModel,
)
    ensures
        reply is Stored ==> counted_pack(s, objects, bytes, len, reply) == (Summary {
            packed: objects,
            packed_bytes: bytes,
            entries_stored: s.entries_stored.wrapping_add(1),
            bytes_uploaded: s.bytes_uploaded.wrapping_add(len),
            ..s
        }),
        reply is Failed || reply is Unconfirmed ==> counted_pack(s, objects, bytes, len, reply) == (
        Summary { uploads_failed: s.uploads_failed.wrapping_add(1), ..s }),
        reply is Missing || reply is Found || reply is Declined ==> counted_pack(
            s,
            objects,
            bytes,
            len,
            reply,
        ) == s,
{
}

/// The bytes of objects are those of their bodies, counted up to what 64 bits hold.
pub proof fn law_bytes_are_added_up(objects: Seq<Object>, o: Object)
    ensures
        total(Seq::empty()) == 0,
        total(objects.push(o)) == if total(objects) + o.1.len() <= 0xffff_ffff_ffff_ffff {
            total(objects) + o.1.len()
        } else {
            0xffff_ffff_ffff_ffff
        },
{
    assert(objects.push(o).drop_last() =~= objects);
}

/// A list is that of some keys where it holds each of them, and nothing else, each after those that
/// come before it. The manifest is the list with line feeds between.
pub proof fn law_what_manifests_list(list: Seq<Seq<char>>, keys: Set<Seq<char>>, i: int, j: int)
    requires
        is_listing(list, keys),
    ensures
        0 <= i < list.len() ==> keys.contains(list[i]),
        0 <= i < j < list.len() ==> order::before(list[i], list[j]),
        forall|key: Seq<char>| #[trigger] keys.contains(key) ==> list.contains(key),
        manifest_of(list) == encode_utf8(text::join(list, seq!['\n'])),
{
    reveal_strlit("\n");
    assert("\n"@ =~= seq!['\n']);
    assert forall|key: Seq<char>| #[trigger] keys.contains(key) implies list.contains(key) by {
        assert(list.to_set().contains(key));
    }
    if 0 <= i < list.len() {
        assert(list.to_set().contains(list[i]));
    }
}

/// A store begins with nothing known, nothing put and an open queue, and with what it was given.
pub proof fn law_stores_begin_empty(remote: bool, key_prefix: String, threshold: u64, out: Store)
    requires
        call_ensures(Store::new, (remote, key_prefix, threshold), out),
    ensures
        out@.remote == remote,
        out@.prefix == key_prefix@,
        out@.threshold == threshold,
        out@.index == Set::<Seq<char>>::empty(),
        out@.misses == Set::<Seq<char>>::empty(),
        out@.queued == Set::<Seq<char>>::empty(),
        out@.packed == Seq::<Object>::empty(),
        !out@.dirty && !out@.pack_dirty && !out@.closed,
{
}

/// What is said of the manifest and of the uploads of a job holds their numbers; nothing is said where
/// there is nothing to say. At least one upload runs, and as many as were asked for.
pub proof fn law_what_is_said_of_uploads(
    count: usize,
    reply: &Ending,
    manifest: Option<String>,
    summary: &Summary,
    uploads: Option<String>,
    asked: usize,
    running: usize,
)
    requires
        call_ensures(manifest_note, (count, reply), manifest),
        call_ensures(flush_note, (summary,), uploads),
        call_ensures(permits, (asked,), running),
    ensures
        *reply is Stored ==> (manifest matches Some(s) && s@ == "cicache: manifest now lists "@
            + numbers::decimal(count as nat) + " objects"@),
        *reply matches Ending::Failed(e) ==> (manifest matches Some(s) && s@
            == "cicache: could not write the manifest: "@ + e@),
        !(*reply is Stored) && !(*reply is Failed) ==> manifest is None,
        summary.entries_stored == 0 && summary.uploads_failed == 0 ==> uploads is None,
        summary.entries_stored > 0 || summary.uploads_failed > 0 ==> (uploads matches Some(s) && s@
            == "cicache: uploaded "@ + numbers::decimal(summary.entries_stored as nat)
            + " entries, "@ + numbers::decimal(summary.uploads_failed as nat) + " failed"@),
        asked == 0 ==> running == 1,
        asked > 0 ==> running == asked,
{
}

/// A store changes as it is stated to when a manifest or a shared entry was read, an object was asked
/// for or put, or an upload ended; and it tells what there is to do and to say.
pub proof fn law_stores_learn(
    loading: &mut Store,
    asking: &mut Store,
    packing: &mut Store,
    reply: &Ending,
    key: &str,
    ended: Ending,
    note: Option<String>,
    asked: (Option<Bytes>, Option<String>),
    unpacked: (Vec<(String, Bytes)>, Option<String>),
)
    requires
        call_ensures(Store::load_index, (loading, reply), note),
        call_ensures(Store::asked, (asking, key, ended), asked),
        call_ensures(Store::load_pack, (packing, reply), unpacked),
    ensures
        final(loading)@ == after_load(old(loading)@, reply@),
        !old(loading)@.remote ==> note is None,
        old(loading)@.remote && reply@ is Found ==> (note matches Some(s) && s@
            == "cicache: cache holds "@ + numbers::decimal(final(loading)@.index.len())
            + " objects"@),
        old(loading)@.remote ==> (reply@ matches EndingModel::Failed(e) ==> (note matches Some(s)
            && s@ == "cicache: could not read the manifest: "@ + e)),
        old(loading)@.remote && !(reply@ is Found) && !(reply@ is Failed) ==> (note matches Some(s)
            && s@ == "cicache: no manifest yet; this run will build one"@),
        final(asking)@ == after_ask(old(asking)@, key@, ended@),
        ended matches Ending::Found(b) ==> asked.0 == Some(b),
        !(ended is Found) ==> asked.0 is None,
        ended matches Ending::Failed(e) ==> (asked.1 matches Some(s) && s@
            == "cicache: cache lookup for "@ + key@ + " failed: "@ + e@),
        !(ended is Failed) ==> asked.1 is None,
        final(packing)@ == after_load_pack(old(packing)@, reply@),
        old(packing)@.remote ==> pack::objects_of(unpacked.0@) == delivered(reply@),
        !old(packing)@.remote ==> unpacked.0@.len() == 0 && unpacked.1 is None,
        old(packing)@.remote ==> (reply@ matches EndingModel::Failed(e) ==> (
        unpacked.1 matches Some(s) && s@ == "cicache: could not read the packed objects: "@ + e)),
        old(packing)@.remote ==> (reply@ matches EndingModel::Found(raw) ==> (unpacked.1 is Some
            <==> !pack::magic().is_prefix_of(raw))),
{
    if !old(packing)@.remote {
        assert(pack::objects_of(unpacked.0@).len() == unpacked.0@.len());
    }
}

/// A store is asked, given objects and told of uploads as stated.
pub proof fn law_stores_decide(
    store: &Store,
    putting: &mut Store,
    uploading: &mut Store,
    stats: &mut Stats,
    key: &str,
    local: Option<Bytes>,
    found: Lookup,
    bytes: &Bytes,
    done: Put,
    name: String,
    len: u64,
    ended: Ending,
    note: Option<String>,
)
    requires
        call_ensures(Store::get, (store, key, local), found),
        call_ensures(Store::put, (putting, key, bytes), done),
        call_ensures(Store::uploaded, (uploading, stats, name, len, ended), note),
    ensures
        found == lookup(store@, key@, local),
        done == plan(old(putting)@, key@, wire::content(*bytes).len()),
        final(putting)@ == after_put(old(putting)@, key@, wire::content(*bytes)),
        final(uploading)@ == after_upload(old(uploading)@, name@, ended@),
        final(stats)@ == counted(old(stats)@, len, ended@),
        note is Some <==> missed(ended@),
        note matches Some(s) ==> s@ == "cicache: storing "@ + name@ + " failed: "@ + shortfall(
            ended@,
        ),
{
}

/// At the end of a job the shared entry and the manifest are written exactly where the job added to
/// them, merged with the newest: the entry holds all the objects that share it, and the manifest all
/// the keys that are known.
pub proof fn law_jobs_write_what_they_added(
    flushing: &mut Store,
    saving: &mut Store,
    newest: &Ending,
    parcel: Option<Parcel>,
    manifest: Option<Manifest>,
    store: &Store,
    packs: bool,
    saves: bool,
)
    requires
        call_ensures(Store::flush, (flushing, newest), parcel),
        call_ensures(Store::save_index, (saving, newest), manifest),
        call_ensures(Store::needs_packing, (store,), packs),
        call_ensures(Store::needs_saving, (store,), saves),
    ensures
        final(flushing)@ == after_flush(old(flushing)@, newest@),
        parcel is Some <==> old(flushing)@.remote && old(flushing)@.pack_dirty,
        parcel matches Some(p) ==> wire::content(p.body) == pack::container(
            pack::kept(final(flushing)@.packed, 0xffff_ffff_ffff_ffff),
        ) && p.count == final(flushing)@.packed.len() && p.bytes == total(final(flushing)@.packed),
        final(saving)@ == after_load(old(saving)@, newest@),
        manifest is Some <==> old(saving)@.remote && old(saving)@.dirty,
        manifest matches Some(m) ==> exists|list: Seq<Seq<char>>| #[trigger]
            is_listing(list, final(saving)@.index) && wire::content(m.body) == manifest_of(list)
                && m.count == list.len(),
        packs <==> store@.remote && store@.pack_dirty,
        saves <==> store@.remote && store@.dirty,
{
}

/// The upload of the shared entry is counted and spoken of as stated, and closing the queue changes
/// nothing else.
pub proof fn law_the_shared_entry_is_uploaded(
    stats: &mut Stats,
    count: usize,
    bytes: u64,
    len: u64,
    reply: &Ending,
    note: Option<String>,
    store: &mut Store,
    done: (),
    named: &Store,
    prefix: &str,
)
    requires
        call_ensures(parcel_uploaded, (stats, count, bytes, len, reply), note),
        call_ensures(Store::close, (store,), done),
        call_ensures(Store::key_prefix, (named,), prefix),
    ensures
        final(stats)@ == counted_pack(old(stats)@, count as u64, bytes, len, reply@),
        note is Some <==> missed(reply@),
        note matches Some(s) ==> s@ == "cicache: storing the packed objects failed: "@ + shortfall(
            reply@,
        ),
        final(store)@ == (StoreModel { closed: true, ..old(store)@ }),
        prefix@ == named@.prefix,
{
}

} // verus!
