//! Client for the GitHub Actions cache service (the Twirp `v2` API).
//!
//! The service is used as a content-addressed key/value store rather than through the usual
//! archive restore/save dance: every cached object is its own entry, fetched only when a request
//! actually misses locally. Objects themselves live in Azure Blob Storage; the service hands out
//! pre-signed URLs for upload and download.
//!
//! Entries are immutable once finalized and are scoped to the branch that wrote them. A branch can
//! read entries written by its base branch and by the repository's default branch, so a cache is
//! best primed by a run on the default branch.
//!
//! An exchange with the service is a sequence of steps. Each is performed outside, and what came
//! back is handed in for the next.

use crate::{clock, digest, numbers, text, wire};
use bytes::Bytes;
use hyper::StatusCode;
use vstd::prelude::*;
use vstd::utf8::encode_utf8;

verus! {

/// A client of the cache service.
pub struct GhaCache {
    base: String,
    token: String,
    version: String,
    /// Set once the service starts refusing calls. The cache API is rate limited per job, and a
    /// build that fetches thousands of small objects will exhaust it; continuing to call costs a
    /// round trip per request and returns nothing.
    exhausted: bool,
}

/// What a [`GhaCache`] holds.
pub struct GhaModel {
    pub base: Seq<char>,
    pub token: Seq<char>,
    pub version: Seq<char>,
    pub exhausted: bool,
}

/// A call of the service.
#[derive(Debug)]
pub enum Call {
    /// Asks where an object can be downloaded: the newest entry of that key, or one whose key begins
    /// with one of the others.
    Download { key: String, restore_keys: Vec<String> },
    /// Reserves the key of an object of some length.
    Create { key: String, len: u64 },
    /// Declares an upload of some length complete.
    Finalize { key: String, len: u64 },
}

/// A transfer of an object from or to the URL that the service handed out.
#[derive(Debug)]
pub enum Transfer {
    Download { key: String, url: String },
    Upload { key: String, url: String, len: u64 },
}

/// How an exchange ended.
#[derive(Debug)]
pub enum Ending {
    /// No entry matches, or the service was not asked because it refuses calls.
    Missing,
    Found(Bytes),
    /// The object is stored.
    Stored,
    /// The service declined the reservation: a concurrent job already wrote the same key.
    Declined,
    /// The object was not stored: the service refuses calls, or did not accept the upload.
    Unconfirmed,
    Failed(String),
}

/// What an exchange needs next.
#[derive(Debug)]
pub enum Step {
    Call(Call),
    Transfer(Transfer),
    Done(Ending),
}

/// What the service answered: whether it agrees, and the URL it handed out, if any.
#[derive(Debug)]
pub struct Answer {
    pub ok: bool,
    pub signed_url: String,
}

/// What came back from a call.
#[derive(Debug)]
pub enum Reply {
    /// The call did not get through, with the reason.
    Unreached(String),
    /// The service answered with a status and a text, which spells an answer or, for the reason
    /// given, does not.
    Answered { status: u16, text: String, answer: Result<Answer, String> },
}

/// What came back from a transfer.
#[derive(Debug)]
pub enum Blob {
    /// The transfer did not get through, with the reason.
    Unreached(String),
    /// The storage answered with a status and a body, or the body broke off for the reason given.
    Answered { status: u16, body: Result<Bytes, String> },
}

/// What a [`Call`] holds.
pub enum CallModel {
    Download { key: Seq<char>, restore_keys: Seq<Seq<char>> },
    Create { key: Seq<char>, len: u64 },
    Finalize { key: Seq<char>, len: u64 },
}

/// What a [`Transfer`] holds.
pub enum TransferModel {
    Download { key: Seq<char>, url: Seq<char> },
    Upload { key: Seq<char>, url: Seq<char>, len: u64 },
}

/// What an [`Ending`] holds.
pub enum EndingModel {
    Missing,
    Found(Seq<u8>),
    Stored,
    Declined,
    Unconfirmed,
    Failed(Seq<char>),
}

/// What a [`Step`] holds.
pub enum StepModel {
    Call(CallModel),
    Transfer(TransferModel),
    Done(EndingModel),
}

impl Call {
    pub open spec fn view(&self) -> CallModel {
        match *self {
            Call::Download { key, restore_keys } => CallModel::Download {
                key: key@,
                restore_keys: text::texts(restore_keys@),
            },
            Call::Create { key, len } => CallModel::Create { key: key@, len },
            Call::Finalize { key, len } => CallModel::Finalize { key: key@, len },
        }
    }
}

impl Transfer {
    pub open spec fn view(&self) -> TransferModel {
        match *self {
            Transfer::Download { key, url } => TransferModel::Download { key: key@, url: url@ },
            Transfer::Upload { key, url, len } => TransferModel::Upload {
                key: key@,
                url: url@,
                len,
            },
        }
    }
}

impl Ending {
    pub open spec fn view(&self) -> EndingModel {
        match *self {
            Ending::Missing => EndingModel::Missing,
            Ending::Found(b) => EndingModel::Found(wire::content(b)),
            Ending::Stored => EndingModel::Stored,
            Ending::Declined => EndingModel::Declined,
            Ending::Unconfirmed => EndingModel::Unconfirmed,
            Ending::Failed(s) => EndingModel::Failed(s@),
        }
    }
}

impl Step {
    pub open spec fn view(&self) -> StepModel {
        match *self {
            Step::Call(c) => StepModel::Call(c@),
            Step::Transfer(t) => StepModel::Transfer(t@),
            Step::Done(e) => StepModel::Done(e@),
        }
    }
}

/// The code of a status and the words that go with it.
pub uninterp spec fn status_text(code: u16) -> Seq<char>;

/// `hyper::StatusCode` of a three-digit code, in its `Display` form.
#[verifier::external_body]
fn status_words(code: u16) -> (out: String)
    requires
        100 <= code <= 999,
    ensures
        out@ == status_text(code),
{
    StatusCode::from_u16(code).unwrap().to_string()
}

/// Whether a status says success.
pub open spec fn success(code: u16) -> bool {
    200 <= code <= 299
}

/// Distinguishes entry layouts. Bumping it makes every previously written entry unreachable, which
/// is the intended way to invalidate the whole cache after a format change.
pub open spec fn entry_version() -> Seq<char> {
    digest::sha256_hex(encode_utf8("cicache/entry-v1"@))
}

/// A client for a service at an address, whose URL ends in a slash.
pub open spec fn client(base: Seq<char>, token: Seq<char>) -> GhaModel {
    GhaModel {
        base: if base.last() == '/' {
            base
        } else {
            base + "/"@
        },
        token,
        version: entry_version(),
        exhausted: false,
    }
}

/// The name that the service has for a call.
pub open spec fn method_name(call: CallModel) -> Seq<char> {
    match call {
        CallModel::Download { .. } => "GetCacheEntryDownloadURL"@,
        CallModel::Create { .. } => "CreateCacheEntry"@,
        CallModel::Finalize { .. } => "FinalizeCacheEntryUpload"@,
    }
}

/// Common prefix for every manifest, so the newest can be found by prefix match.
pub open spec fn manifest_prefix(prefix: Seq<char>) -> Seq<char> {
    prefix + "-index-"@
}

/// Common prefix for every entry of packed objects, so the newest can be found by prefix match.
pub open spec fn pack_prefix(prefix: Seq<char>) -> Seq<char> {
    prefix + "-pack-"@
}

/// The key of an entry of which each job writes its own. It carries the run identity so concurrent
/// jobs do not collide on an entry that cannot be rewritten.
pub open spec fn stamped(
    prefix: Seq<char>,
    stamp: u64,
    run: Option<Seq<char>>,
    job: Option<Seq<char>>,
) -> Seq<char> {
    prefix + numbers::decimal(stamp as nat) + "-"@ + match run {
        Some(s) => s,
        None => "local"@,
    } + "-"@ + match job {
        Some(s) => s,
        None => "job"@,
    }
}

/// How a fetch begins.
pub open spec fn fetching(m: GhaModel, key: Seq<char>, restore_keys: Seq<Seq<char>>) -> StepModel {
    if m.exhausted {
        StepModel::Done(EndingModel::Missing)
    } else {
        StepModel::Call(CallModel::Download { key, restore_keys })
    }
}

/// How storing an object begins.
pub open spec fn storing(m: GhaModel, key: Seq<char>, len: u64) -> StepModel {
    if m.exhausted {
        StepModel::Done(EndingModel::Unconfirmed)
    } else {
        StepModel::Call(CallModel::Create { key, len })
    }
}

/// What follows the service's answer to a call.
pub open spec fn after_answer(call: CallModel, ok: bool, signed_url: Seq<char>) -> StepModel {
    match call {
        CallModel::Download { key, .. } => if ok && signed_url.len() > 0 {
            StepModel::Transfer(TransferModel::Download { key, url: signed_url })
        } else {
            StepModel::Done(EndingModel::Missing)
        },
        CallModel::Create { key, len } => if ok && signed_url.len() > 0 {
            StepModel::Transfer(TransferModel::Upload { key, url: signed_url, len })
        } else {
            StepModel::Done(EndingModel::Declined)
        },
        CallModel::Finalize { .. } => if ok {
            StepModel::Done(EndingModel::Stored)
        } else {
            StepModel::Done(EndingModel::Unconfirmed)
        },
    }
}

/// What follows a call.
pub open spec fn after_call(call: CallModel, reply: Reply) -> StepModel {
    match reply {
        Reply::Unreached(cause) => StepModel::Done(
            EndingModel::Failed("calling "@ + method_name(call) + ": "@ + cause@),
        ),
        Reply::Answered { status, text, answer } => if !success(status) {
            StepModel::Done(
                EndingModel::Failed(
                    method_name(call) + " returned "@ + status_text(status) + ": "@ + text@,
                ),
            )
        } else {
            match answer {
                Err(cause) => StepModel::Done(
                    EndingModel::Failed(
                        "decoding "@ + method_name(call) + " response: "@ + text@ + ": "@ + cause@,
                    ),
                ),
                Ok(a) => after_answer(call, a.ok, a.signed_url@),
            }
        },
    }
}

/// Whether a reply says that the service refuses calls.
pub open spec fn refuses(reply: Reply) -> bool {
    reply matches Reply::Answered { status, .. } && status == 429
}

/// The client after a reply: once the service refuses calls, that is remembered.
pub open spec fn after_reply(m: GhaModel, reply: Reply) -> GhaModel {
    GhaModel { exhausted: m.exhausted || refuses(reply), ..m }
}

/// What follows a transfer.
pub open spec fn after_transfer(transfer: TransferModel, blob: Blob) -> StepModel {
    match transfer {
        TransferModel::Download { key, .. } => match blob {
            Blob::Unreached(cause) => StepModel::Done(
                EndingModel::Failed("downloading cache blob: "@ + cause@),
            ),
            Blob::Answered { status, body } => if !success(status) {
                StepModel::Done(
                    EndingModel::Failed(
                        "download for "@ + key + " returned "@ + status_text(status)
                            + " despite the service offering it"@,
                    ),
                )
            } else {
                match body {
                    Err(cause) => StepModel::Done(
                        EndingModel::Failed("reading cache blob: "@ + cause@),
                    ),
                    Ok(b) => StepModel::Done(EndingModel::Found(wire::content(b))),
                }
            },
        },
        TransferModel::Upload { key, len, .. } => match blob {
            Blob::Unreached(cause) => StepModel::Done(
                EndingModel::Failed("uploading cache blob: "@ + cause@),
            ),
            Blob::Answered { status, .. } => if !success(status) {
                StepModel::Done(
                    EndingModel::Failed("blob upload returned "@ + status_text(status)),
                )
            } else {
                StepModel::Call(CallModel::Finalize { key, len })
            },
        },
    }
}

impl GhaCache {
    /// What the client holds.
    pub closed spec fn view(&self) -> GhaModel {
        GhaModel {
            base: self.base@,
            token: self.token@,
            version: self.version@,
            exhausted: self.exhausted,
        }
    }

    /// Builds a client from the variables the Actions runner exports into every step, the service's
    /// address and the job's token. Returns `None` outside Actions, which leaves the proxy running
    /// with only its local disk cache.
    pub fn from_env(base: Option<String>, token: Option<String>) -> (out: Option<Self>)
        ensures
            out is Some <==> base is Some && token is Some && base.unwrap()@.len() > 0
                && token.unwrap()@.len() > 0,
            out matches Some(cache) ==> cache@ == client(base.unwrap()@, token.unwrap()@),
    {
        let (mut base, token) = match (base, token) {
            (Some(base), Some(token)) => (base, token),
            _ => return None,
        };
        let len = base.as_str().unicode_len();
        if len == 0 || token.as_str().unicode_len() == 0 {
            return None;
        }
        if base.as_str().get_char(len - 1) != '/' {
            base.append("/");
        }
        let version = digest::sha_hex(wire::text_bytes("cicache/entry-v1"));
        Some(GhaCache { base, token, version, exhausted: false })
    }

    /// Whether the service has started refusing calls for this job.
    pub fn is_exhausted(&self) -> (out: bool)
        ensures
            out == self@.exhausted,
    {
        self.exhausted
    }

    /// The token that every call bears.
    pub fn token(&self) -> (out: &str)
        ensures
            out@ == self@.token,
    {
        self.token.as_str()
    }

    /// The version that every request names.
    pub fn version(&self) -> (out: &str)
        ensures
            out@ == self@.version,
    {
        self.version.as_str()
    }

    /// The URL that a call is posted to.
    pub fn call_url(&self, call: &Call) -> (out: String)
        ensures
            out@ == self@.base + "twirp/github.actions.results.api.v1.CacheService"@ + "/"@
                + method_name(call@),
    {
        let mut out = text::concat3(
            self.base.as_str(),
            "twirp/github.actions.results.api.v1.CacheService",
            "/",
        );
        out.append(call.method());
        out
    }

    /// Fetches a previously stored object.
    pub fn get(&self, key: &str) -> (out: Step)
        ensures
            out@ == fetching(self@, key@, Seq::empty()),
    {
        let restore_keys: Vec<String> = Vec::new();
        assert(text::texts(restore_keys@) =~= Seq::empty());
        self.fetch(key, restore_keys)
    }

    /// Fetches the newest manifest written under `prefix`.
    ///
    /// Entries are immutable, so each job writes its own manifest under a unique key and the
    /// newest is found by prefix rather than by overwriting one well-known key.
    pub fn get_index(&self, prefix: &str) -> (out: Step)
        ensures
            out@ == fetching(self@, manifest_prefix(prefix@), seq![manifest_prefix(prefix@)]),
    {
        let restore = index_prefix(prefix);
        let mut restore_keys: Vec<String> = Vec::new();
        restore_keys.push(index_prefix(prefix));
        assert(text::texts(restore_keys@) =~= seq![manifest_prefix(prefix@)]);
        self.fetch(restore.as_str(), restore_keys)
    }

    /// Writes a manifest of some length. The key carries the run identity so concurrent jobs do not
    /// collide on an entry that cannot be rewritten.
    pub fn put_index(&self, prefix: &str, len: u64, run: Option<&str>, job: Option<&str>) -> (out:
        Step)
        ensures
            exists|stamp: u64| #[trigger]
                storing(
                    self@,
                    stamped(manifest_prefix(prefix@), stamp, text::optional(run), text::optional(job)),
                    len,
                ) == out@,
    {
        let key = stamped_key(index_prefix(prefix).as_str(), clock::now(), run, job);
        self.put(key.as_str(), len)
    }

    /// Fetches the newest entry of packed objects written under `prefix`.
    pub fn get_pack(&self, prefix: &str) -> (out: Step)
        ensures
            out@ == fetching(self@, pack_prefix(prefix@), seq![pack_prefix(prefix@)]),
    {
        let restore = packed_prefix(prefix);
        let mut restore_keys: Vec<String> = Vec::new();
        restore_keys.push(packed_prefix(prefix));
        assert(text::texts(restore_keys@) =~= seq![pack_prefix(prefix@)]);
        self.fetch(restore.as_str(), restore_keys)
    }

    /// Writes an entry of packed objects of some length.
    pub fn put_pack(&self, prefix: &str, len: u64, run: Option<&str>, job: Option<&str>) -> (out:
        Step)
        ensures
            exists|stamp: u64| #[trigger]
                storing(
                    self@,
                    stamped(
                        pack_prefix(prefix@),
                        stamp,
                        text::optional(run),
                        text::optional(job),
                    ),
                    len,
                ) == out@,
    {
        let key = stamped_key(packed_prefix(prefix).as_str(), clock::now(), run, job);
        self.put(key.as_str(), len)
    }

    fn fetch(&self, key: &str, restore_keys: Vec<String>) -> (out: Step)
        ensures
            out@ == fetching(self@, key@, text::texts(restore_keys@)),
    {
        if self.is_exhausted() {
            return Step::Done(Ending::Missing);
        }
        Step::Call(Call::Download { key: key.to_string(), restore_keys })
    }

    /// Stores an object of some length.
    pub fn put(&self, key: &str, len: u64) -> (out: Step)
        ensures
            out@ == storing(self@, key@, len),
    {
        if self.is_exhausted() {
            return Step::Done(Ending::Unconfirmed);
        }
        Step::Call(Call::Create { key: key.to_string(), len })
    }

    /// What follows a call, and what there is to say about it: the first time that the service
    /// refuses a call, that it is given up on.
    pub fn answered(&mut self, call: Call, reply: Reply) -> (out: (Step, Option<&'static str>))
        requires
            reply matches Reply::Answered { status, .. } ==> 100 <= status <= 999,
        ensures
            out.0@ == after_call(call@, reply),
            out.1 is Some == (refuses(reply) && !old(self)@.exhausted),
            out.1 matches Some(note) ==> note@
                == "cicache: the cache service is rate limiting this job; giving up on it for the rest of the run."@,
            final(self)@ == after_reply(old(self)@, reply),
    {
        let method = call.method();
        match reply {
            Reply::Unreached(cause) => {
                let message = text::concat3("calling ", method, ": ");
                let message = text::concat(message.as_str(), cause.as_str());
                (Step::Done(Ending::Failed(message)), None)
            },
            Reply::Answered { status, text, answer } => {
                if !(200 <= status && status <= 299) {
                    let note: Option<&'static str> = if status == 429 && !self.exhausted {
                        Some(
                            "cicache: the cache service is rate limiting this job; giving up on it for the rest of the run.",
                        )
                    } else {
                        None
                    };
                    if status == 429 {
                        self.exhausted = true;
                    }
                    let words = status_words(status);
                    let message = text::concat5(
                        method,
                        " returned ",
                        words.as_str(),
                        ": ",
                        text.as_str(),
                    );
                    return (Step::Done(Ending::Failed(message)), note);
                }
                let answer = match answer {
                    Ok(answer) => answer,
                    Err(cause) => {
                        let message = text::concat5(
                            "decoding ",
                            method,
                            " response: ",
                            text.as_str(),
                            ": ",
                        );
                        let message = text::concat(message.as_str(), cause.as_str());
                        return (Step::Done(Ending::Failed(message)), None);
                    },
                };
                let offered = answer.ok && answer.signed_url.as_str().unicode_len() > 0;
                let step = match call {
                    Call::Download { key, .. } => if offered {
                        Step::Transfer(Transfer::Download { key, url: answer.signed_url })
                    } else {
                        Step::Done(Ending::Missing)
                    },
                    Call::Create { key, len } => if offered {
                        Step::Transfer(Transfer::Upload { key, url: answer.signed_url, len })
                    } else {
                        Step::Done(Ending::Declined)
                    },
                    Call::Finalize { .. } => if answer.ok {
                        Step::Done(Ending::Stored)
                    } else {
                        Step::Done(Ending::Unconfirmed)
                    },
                };
                (step, None)
            },
        }
    }
}

impl Call {
    /// The name that the service has for the call.
    pub fn method(&self) -> (out: &'static str)
        ensures
            out@ == method_name(self@),
    {
        match self {
            Call::Download { .. } => "GetCacheEntryDownloadURL",
            Call::Create { .. } => "CreateCacheEntry",
            Call::Finalize { .. } => "FinalizeCacheEntryUpload",
        }
    }
}

/// What follows a transfer.
pub fn transferred(transfer: Transfer, blob: Blob) -> (out: Step)
    requires
        blob matches Blob::Answered { status, .. } ==> 100 <= status <= 999,
    ensures
        out@ == after_transfer(transfer@, blob),
{
    match transfer {
        Transfer::Download { key, .. } => match blob {
            Blob::Unreached(cause) => Step::Done(
                Ending::Failed(text::concat("downloading cache blob: ", cause.as_str())),
            ),
            Blob::Answered { status, body } => {
                if !(200 <= status && status <= 299) {
                    // The service handed out a URL, so it believes it holds this entry. Treating
                    // the failure as a plain miss would hide it behind an ordinary-looking cache
                    // miss.
                    let words = status_words(status);
                    let message = text::concat5(
                        "download for ",
                        key.as_str(),
                        " returned ",
                        words.as_str(),
                        " despite the service offering it",
                    );
                    return Step::Done(Ending::Failed(message));
                }
                match body {
                    Ok(bytes) => Step::Done(Ending::Found(bytes)),
                    Err(cause) => Step::Done(
                        Ending::Failed(text::concat("reading cache blob: ", cause.as_str())),
                    ),
                }
            },
        },
        Transfer::Upload { key, len, .. } => match blob {
            Blob::Unreached(cause) => Step::Done(
                Ending::Failed(text::concat("uploading cache blob: ", cause.as_str())),
            ),
            Blob::Answered { status, .. } => {
                if !(200 <= status && status <= 299) {
                    let words = status_words(status);
                    return Step::Done(
                        Ending::Failed(text::concat("blob upload returned ", words.as_str())),
                    );
                }
                Step::Call(Call::Finalize { key, len })
            },
        },
    }
}

/// A length as the service takes it: proto3 JSON encodes 64-bit integers as strings.
pub fn size_bytes(len: u64) -> (out: String)
    ensures
        out@ == numbers::decimal(len as nat),
{
    numbers::to_decimal(len)
}

/// Common prefix for every manifest, so the newest can be found by prefix match.
pub fn index_prefix(prefix: &str) -> (out: String)
    ensures
        out@ == manifest_prefix(prefix@),
{
    text::concat(prefix, "-index-")
}

/// Common prefix for every entry of packed objects, so the newest can be found by prefix match.
pub fn packed_prefix(prefix: &str) -> (out: String)
    ensures
        out@ == pack_prefix(prefix@),
{
    text::concat(prefix, "-pack-")
}

/// The key of the entry under a prefix that a job writes at some moment.
pub fn stamped_key(prefix: &str, stamp: u64, run: Option<&str>, job: Option<&str>) -> (out: String)
    ensures
        out@ == stamped(prefix@, stamp, text::optional(run), text::optional(job)),
{
    let mut out = prefix.to_string();
    numbers::push_decimal(&mut out, stamp as u128);
    out.append("-");
    out.append(
        match run {
            Some(run) => run,
            None => "local",
        },
    );
    out.append("-");
    out.append(
        match job {
            Some(job) => job,
            None => "job",
        },
    );
    out
}

/// Once the service refuses calls, it is not called again: whatever is to be fetched or stored, the
/// exchange is over before its first step, and nothing that comes back changes that.
pub proof fn law_an_exhausted_service_is_left_alone(
    m: GhaModel,
    key: Seq<char>,
    restore_keys: Seq<Seq<char>>,
    len: u64,
    reply: Reply,
)
    requires
        m.exhausted,
    ensures
        after_reply(m, reply) == m,
        fetching(m, key, restore_keys) == StepModel::Done(EndingModel::Missing),
        storing(m, key, len) == StepModel::Done(EndingModel::Unconfirmed),
{
}

/// An object counts as stored only once the service accepted the finished upload, and as declined
/// only where the service turned down the reservation.
pub proof fn law_stored_means_finalized(call: CallModel, reply: Reply)
    ensures
        after_call(call, reply) == StepModel::Done(EndingModel::Stored) ==> call is Finalize
            && reply is Answered && success(reply->status) && reply->answer is Ok
            && reply->answer->Ok_0.ok,
        after_call(call, reply) == StepModel::Done(EndingModel::Declined) ==> call is Create,
{
}

/// Only an upload that the storage accepted is finalized, under the key and with the length that
/// were reserved.
pub proof fn law_only_uploads_are_finalized(transfer: TransferModel, blob: Blob)
    ensures
        after_transfer(transfer, blob) matches StepModel::Call(c) ==> transfer matches TransferModel::Upload {
            key,
            len,
            ..
        } && c == (CallModel::Finalize { key, len }) && blob is Answered && success(
            blob->Answered_status,
        ),
{
}

/// How many steps an exchange has left at most.
pub open spec fn steps_left(step: StepModel) -> nat {
    match step {
        StepModel::Done(_) => 0,
        StepModel::Call(CallModel::Finalize { .. }) => 1,
        StepModel::Transfer(TransferModel::Download { .. }) => 1,
        StepModel::Transfer(TransferModel::Upload { .. }) => 2,
        StepModel::Call(CallModel::Download { .. }) => 2,
        StepModel::Call(CallModel::Create { .. }) => 3,
    }
}

/// Every exchange ends: each step leaves fewer. Fetching an object takes one call of the service,
/// and storing one takes two.
pub proof fn law_exchanges_end(call: CallModel, reply: Reply, transfer: TransferModel, blob: Blob)
    ensures
        steps_left(after_call(call, reply)) < steps_left(StepModel::Call(call)),
        steps_left(after_transfer(transfer, blob)) < steps_left(StepModel::Transfer(transfer)),
        !(after_call(call, reply) is Call),
        after_transfer(transfer, blob) is Call ==> transfer is Upload,
{
}

/// An entry of which each job writes its own is found by the prefix that it was written under.
pub proof fn law_stamped_entries_share_their_prefix(
    prefix: Seq<char>,
    stamp: u64,
    run: Option<Seq<char>>,
    job: Option<Seq<char>>,
)
    ensures
        prefix.is_prefix_of(stamped(prefix, stamp, run, job)),
{
    assert(stamped(prefix, stamp, run, job).subrange(0, prefix.len() as int) =~= prefix);
}

/// A call that did not get through, or that was answered with a status that is no success, has
/// failed, whatever was called for and whatever else the answer says; and so has one whose answer
/// cannot be read. What is said of it names the call, and holds the status and the text, or the cause.
pub proof fn law_failed_calls(call: CallModel, reply: Reply, name: Seq<char>)
    requires
        call is Download ==> name == "GetCacheEntryDownloadURL"@,
        call is Create ==> name == "CreateCacheEntry"@,
        call is Finalize ==> name == "FinalizeCacheEntryUpload"@,
    ensures
        reply matches Reply::Unreached(cause) ==> after_call(call, reply) == StepModel::Done(
            EndingModel::Failed("calling "@ + name + ": "@ + cause@),
        ),
        reply matches Reply::Answered { status, text, answer } ==> (!(200 <= status <= 299)
            ==> after_call(call, reply) == StepModel::Done(
            EndingModel::Failed(name + " returned "@ + status_text(status) + ": "@ + text@),
        )),
        reply matches Reply::Answered { status, text, answer } ==> (200 <= status <= 299 ==> (
        answer matches Err(cause) ==> after_call(call, reply) == StepModel::Done(
            EndingModel::Failed("decoding "@ + name + " response: "@ + text@ + ": "@ + cause@),
        ))),
{
}

/// Whether a reply says success and spells an answer.
pub open spec fn agreed(reply: Reply) -> bool {
    reply is Answered && 200 <= reply->status <= 299 && reply->answer is Ok
}

/// What an exchange comes to after a call that was answered. The key that was asked for is
/// transferred from or to the URL that was handed out, and only where one was; without one there is no
/// entry to download, or the key is another job's. An upload is stored where the service says so.
pub proof fn law_answered_calls(call: CallModel, reply: Reply, ok: bool, url: Seq<char>)
    requires
        agreed(reply),
        ok == reply->answer->Ok_0.ok,
        url == reply->answer->Ok_0.signed_url@,
    ensures
        call matches CallModel::Download { key, .. } ==> after_call(call, reply) == if ok && url.len()
            > 0 {
            StepModel::Transfer(TransferModel::Download { key, url })
        } else {
            StepModel::Done(EndingModel::Missing)
        },
        call matches CallModel::Create { key, len } ==> after_call(call, reply) == if ok && url.len()
            > 0 {
            StepModel::Transfer(TransferModel::Upload { key, url, len })
        } else {
            StepModel::Done(EndingModel::Declined)
        },
        call is Finalize ==> after_call(call, reply) == if ok {
            StepModel::Done(EndingModel::Stored)
        } else {
            StepModel::Done(EndingModel::Unconfirmed)
        },
{
}

/// An object passes for one that another job stored only where the service answered a reservation
/// with success and handed out no URL for it; it passes for missing only where it answered a lookup
/// so; and a call never ends in an object.
pub proof fn law_what_endings_mean(call: CallModel, reply: Reply)
    ensures
        after_call(call, reply) == StepModel::Done(EndingModel::Declined) <==> call is Create
            && agreed(reply) && !(reply->answer->Ok_0.ok && reply->answer->Ok_0.signed_url@.len()
            > 0),
        after_call(call, reply) == StepModel::Done(EndingModel::Missing) <==> call is Download
            && agreed(reply) && !(reply->answer->Ok_0.ok && reply->answer->Ok_0.signed_url@.len()
            > 0),
        after_call(call, reply) == StepModel::Done(EndingModel::Stored) <==> call is Finalize
            && agreed(reply) && reply->answer->Ok_0.ok,
        after_call(call, reply) == StepModel::Done(EndingModel::Unconfirmed) <==> call is Finalize
            && agreed(reply) && !reply->answer->Ok_0.ok,
        after_call(call, reply) matches StepModel::Done(e) ==> !(e is Found),
        !agreed(reply) ==> (after_call(call, reply) matches StepModel::Done(e) && e is Failed),
{
}

/// A download that the storage answered with success is the body that it sent, byte for byte; any
/// other has failed, since the service offered the object.
pub proof fn law_downloads(key: Seq<char>, url: Seq<char>, blob: Blob)
    ensures
        ({
            let after = after_transfer(TransferModel::Download { key, url }, blob);
            match blob {
                Blob::Unreached(cause) => after == StepModel::Done(
                    EndingModel::Failed("downloading cache blob: "@ + cause@),
                ),
                Blob::Answered { status, body } => if !(200 <= status <= 299) {
                    after == StepModel::Done(
                        EndingModel::Failed(
                            "download for "@ + key + " returned "@ + status_text(status)
                                + " despite the service offering it"@,
                        ),
                    )
                } else {
                    match body {
                        Ok(b) => after == StepModel::Done(EndingModel::Found(wire::content(b))),
                        Err(cause) => after == StepModel::Done(
                            EndingModel::Failed("reading cache blob: "@ + cause@),
                        ),
                    }
                },
            }
        }),
{
}

/// An upload that the storage answered with success is declared complete, under its key and with its
/// length; any other has failed.
pub proof fn law_uploads(key: Seq<char>, url: Seq<char>, len: u64, blob: Blob)
    ensures
        ({
            let after = after_transfer(TransferModel::Upload { key, url, len }, blob);
            match blob {
                Blob::Unreached(cause) => after == StepModel::Done(
                    EndingModel::Failed("uploading cache blob: "@ + cause@),
                ),
                Blob::Answered { status, .. } => if !(200 <= status <= 299) {
                    after == StepModel::Done(
                        EndingModel::Failed("blob upload returned "@ + status_text(status)),
                    )
                } else {
                    after == StepModel::Call(CallModel::Finalize { key, len })
                },
            }
        }),
{
}

/// A status of 429 is what says that the service refuses calls, and nothing else does. What it is
/// called with stays as it was.
pub proof fn law_rate_limits_are_remembered(m: GhaModel, reply: Reply)
    ensures
        after_reply(m, reply).exhausted <==> m.exhausted || (reply matches Reply::Answered {
            status,
            ..
        } && status == 429),
        after_reply(m, reply).base == m.base,
        after_reply(m, reply).token == m.token,
        after_reply(m, reply).version == m.version,
{
}

/// As long as the service takes calls it is asked for the very key, and for those that begin as the
/// others do; and a key is reserved with the length of its object.
pub proof fn law_exchanges_begin_with_a_call(
    m: GhaModel,
    key: Seq<char>,
    restore_keys: Seq<Seq<char>>,
    len: u64,
)
    requires
        !m.exhausted,
    ensures
        fetching(m, key, restore_keys) == StepModel::Call(
            CallModel::Download { key, restore_keys },
        ),
        storing(m, key, len) == StepModel::Call(CallModel::Create { key, len }),
{
}

/// A client keeps its token, has an address that ends in a slash, of which it adds one at most, names
/// the version of the entries' layout, and has not been refused a call.
pub proof fn law_clients(base: Seq<char>, token: Seq<char>)
    requires
        base.len() > 0,
    ensures
        client(base, token).base.last() == '/',
        base.last() == '/' ==> client(base, token).base == base,
        base.last() != '/' ==> client(base, token).base == base.push('/'),
        client(base, token).token == token,
        client(base, token).version == digest::hex(
            digest::sha256(encode_utf8("cicache/entry-v1"@))@,
        ),
        !client(base, token).exhausted,
{
    reveal_strlit("/");
    assert(base + "/"@ =~= base.push('/'));
}

/// The key of an entry of which each job writes its own is the prefix, the moment, the run and the
/// job, or words in their place, with hyphens between. Those of manifests and of packed objects begin
/// differently.
pub proof fn law_stamped_keys(
    prefix: Seq<char>,
    stamp: u64,
    run: Option<Seq<char>>,
    job: Option<Seq<char>>,
    run_name: Seq<char>,
    job_name: Seq<char>,
)
    requires
        run_name == match run {
            Some(s) => s,
            None => "local"@,
        },
        job_name == match job {
            Some(s) => s,
            None => "job"@,
        },
    ensures
        stamped(prefix, stamp, run, job) == prefix + numbers::decimal(stamp as nat) + seq!['-']
            + run_name + seq!['-'] + job_name,
        manifest_prefix(prefix) == prefix + "-index-"@,
        pack_prefix(prefix) == prefix + "-pack-"@,
        manifest_prefix(prefix) != pack_prefix(prefix),
{
    reveal_strlit("-");
    reveal_strlit("-index-");
    reveal_strlit("-pack-");
    assert("-"@ =~= seq!['-']);
    assert(manifest_prefix(prefix)[prefix.len() as int + 1] == 'i');
    assert(pack_prefix(prefix)[prefix.len() as int + 1] == 'p');
    assert(stamped(prefix, stamp, run, job) =~= prefix + numbers::decimal(stamp as nat) + seq!['-']
        + run_name + seq!['-'] + job_name);
}

/// A manifest that a job writes is found by the next one that looks for the newest under the same
/// prefix, and so are packed objects; neither is found where the other is looked for.
pub proof fn law_the_newest_is_found_by_prefix(
    m: GhaModel,
    prefix: Seq<char>,
    stamp: u64,
    run: Option<Seq<char>>,
    job: Option<Seq<char>>,
)
    ensures
        manifest_prefix(prefix).is_prefix_of(stamped(manifest_prefix(prefix), stamp, run, job)),
        pack_prefix(prefix).is_prefix_of(stamped(pack_prefix(prefix), stamp, run, job)),
        !manifest_prefix(prefix).is_prefix_of(stamped(pack_prefix(prefix), stamp, run, job)),
        !pack_prefix(prefix).is_prefix_of(stamped(manifest_prefix(prefix), stamp, run, job)),
{
    reveal_strlit("-index-");
    reveal_strlit("-pack-");
    law_stamped_entries_share_their_prefix(manifest_prefix(prefix), stamp, run, job);
    law_stamped_entries_share_their_prefix(pack_prefix(prefix), stamp, run, job);
    let n = prefix.len() as int;
    let a = stamped(pack_prefix(prefix), stamp, run, job);
    let b = stamped(manifest_prefix(prefix), stamp, run, job);
    assert(a[n + 1] == 'p');
    assert(b[n + 1] == 'i');
    if manifest_prefix(prefix).is_prefix_of(a) {
        assert(a.subrange(0, manifest_prefix(prefix).len() as int)[n + 1] == 'i');
    }
    if pack_prefix(prefix).is_prefix_of(b) {
        assert(b.subrange(0, pack_prefix(prefix).len() as int)[n + 1] == 'p');
    }
}

/// What a call, a transfer, an ending or a step shows is what it holds.
pub proof fn law_steps_show_their_parts(call: Call, transfer: Transfer, ending: Ending)
    ensures
        call matches Call::Download { key, restore_keys } ==> call@ == (CallModel::Download {
            key: key@,
            restore_keys: restore_keys@.map_values(|s: String| s@),
        }),
        call matches Call::Create { key, len } ==> call@ == (CallModel::Create { key: key@, len }),
        call matches Call::Finalize { key, len } ==> call@ == (CallModel::Finalize {
            key: key@,
            len,
        }),
        transfer matches Transfer::Download { key, url } ==> transfer@ == (TransferModel::Download {
            key: key@,
            url: url@,
        }),
        transfer matches Transfer::Upload { key, url, len } ==> transfer@ == (
        TransferModel::Upload { key: key@, url: url@, len }),
        ending is Missing == ending@ is Missing,
        ending is Stored == ending@ is Stored,
        ending is Declined == ending@ is Declined,
        ending is Unconfirmed == ending@ is Unconfirmed,
        ending matches Ending::Found(b) ==> ending@ == EndingModel::Found(wire::content(b)),
        ending matches Ending::Failed(s) ==> ending@ == EndingModel::Failed(s@),
        (Step::Call(call))@ == StepModel::Call(call@),
        (Step::Transfer(transfer))@ == StepModel::Transfer(transfer@),
        (Step::Done(ending))@ == StepModel::Done(ending@),
{
    if let Call::Download { key, restore_keys } = call {
        assert(text::texts(restore_keys@) =~= restore_keys@.map_values(|s: String| s@));
    }
}

/// There is a client exactly where the address and the token are both given, and neither is empty. It
/// posts each call to the service under the name that the service has for it.
pub proof fn law_calls_are_posted_by_name(
    base: Option<String>,
    token: Option<String>,
    made: Option<GhaCache>,
    cache: &GhaCache,
    call: &Call,
    posted: String,
    name: Seq<char>,
)
    requires
        call_ensures(GhaCache::from_env, (base, token), made),
        call_ensures(GhaCache::call_url, (cache, call), posted),
        *call is Download ==> name == "GetCacheEntryDownloadURL"@,
        *call is Create ==> name == "CreateCacheEntry"@,
        *call is Finalize ==> name == "FinalizeCacheEntryUpload"@,
    ensures
        made is Some <==> (base matches Some(b) && b@.len() > 0) && (token matches Some(t)
            && t@.len() > 0),
        posted@ == cache@.base + "twirp/github.actions.results.api.v1.CacheService/"@ + name,
{
    reveal_strlit("twirp/github.actions.results.api.v1.CacheService");
    reveal_strlit("/");
    reveal_strlit("twirp/github.actions.results.api.v1.CacheService/");
    assert("twirp/github.actions.results.api.v1.CacheService"@ + "/"@
        =~= "twirp/github.actions.results.api.v1.CacheService/"@);
    assert(posted@ =~= cache@.base + "twirp/github.actions.results.api.v1.CacheService/"@ + name);
}

/// Fetching a key asks for that key alone; the newest manifest and the newest packed objects are
/// asked for by the prefixes that they are written under. Storing reserves the key.
pub proof fn law_what_is_asked_for(
    cache: &GhaCache,
    key: &str,
    len: u64,
    got: Step,
    index: Step,
    pack: Step,
    put: Step,
)
    requires
        !cache@.exhausted,
        call_ensures(GhaCache::get, (cache, key), got),
        call_ensures(GhaCache::get_index, (cache, key), index),
        call_ensures(GhaCache::get_pack, (cache, key), pack),
        call_ensures(GhaCache::put, (cache, key, len), put),
    ensures
        got@ == StepModel::Call(
            CallModel::Download { key: key@, restore_keys: Seq::empty() },
        ),
        index@ == StepModel::Call(
            CallModel::Download {
                key: key@ + "-index-"@,
                restore_keys: seq![key@ + "-index-"@],
            },
        ),
        pack@ == StepModel::Call(
            CallModel::Download { key: key@ + "-pack-"@, restore_keys: seq![key@ + "-pack-"@] },
        ),
        put@ == StepModel::Call(CallModel::Create { key: key@, len }),
{
}

/// A reply is followed by what it means for the call that it answers, and is remembered where it
/// refuses the call; the first such reply is spoken of, and no other. A blob is followed by what it
/// means for its transfer.
pub proof fn law_exchanges_go_on(
    cache: &mut GhaCache,
    call: Call,
    reply: Reply,
    out: (Step, Option<&'static str>),
    transfer: Transfer,
    blob: Blob,
    next: Step,
)
    requires
        call_ensures(GhaCache::answered, (cache, call, reply), out),
        call_ensures(transferred, (transfer, blob), next),
    ensures
        out.0@ == after_call(call@, reply),
        final(cache)@ == after_reply(old(cache)@, reply),
        out.1 is Some <==> !old(cache)@.exhausted && final(cache)@.exhausted,
        out.1 matches Some(note) ==> note@
            == "cicache: the cache service is rate limiting this job; giving up on it for the rest of the run."@,
        next@ == after_transfer(transfer@, blob),
{
}

/// A manifest and packed objects are stored under keys that name the run and the job, as of some
/// moment.
pub proof fn law_stamped_entries_are_stored(
    cache: &GhaCache,
    prefix: &str,
    len: u64,
    run: Option<&str>,
    job: Option<&str>,
    index: Step,
    pack: Step,
)
    requires
        !cache@.exhausted,
        call_ensures(GhaCache::put_index, (cache, prefix, len, run, job), index),
        call_ensures(GhaCache::put_pack, (cache, prefix, len, run, job), pack),
    ensures
        index@ matches StepModel::Call(CallModel::Create { key, len: n }) && n == len && exists|
            stamp: u64,
        |
            key == #[trigger] stamped(
                prefix@ + "-index-"@,
                stamp,
                text::optional(run),
                text::optional(job),
            ),
        pack@ matches StepModel::Call(CallModel::Create { key, len: n }) && n == len && exists|
            stamp: u64,
        |
            key == #[trigger] stamped(
                prefix@ + "-pack-"@,
                stamp,
                text::optional(run),
                text::optional(job),
            ),
{
    let a = choose|stamp: u64| #[trigger]
        storing(
            cache@,
            stamped(manifest_prefix(prefix@), stamp, text::optional(run), text::optional(job)),
            len,
        ) == index@;
    let b = choose|stamp: u64| #[trigger]
        storing(
            cache@,
            stamped(pack_prefix(prefix@), stamp, text::optional(run), text::optional(job)),
            len,
        ) == pack@;
    assert(stamped(prefix@ + "-index-"@, a, text::optional(run), text::optional(job))
        == stamped(manifest_prefix(prefix@), a, text::optional(run), text::optional(job)));
    assert(stamped(prefix@ + "-pack-"@, b, text::optional(run), text::optional(job))
        == stamped(pack_prefix(prefix@), b, text::optional(run), text::optional(job)));
}

/// A client has the token and the address that it was made with, and tells them, and whether the
/// service refuses calls. Lengths are written in decimal.
pub proof fn law_clients_tell_what_they_hold(
    base: String,
    token: String,
    made: Option<GhaCache>,
    cache: &GhaCache,
    told: &str,
    version: &str,
    exhausted: bool,
    len: u64,
    written: String,
)
    requires
        call_ensures(GhaCache::from_env, (Some(base), Some(token)), made),
        call_ensures(GhaCache::token, (cache,), told),
        call_ensures(GhaCache::version, (cache,), version),
        call_ensures(GhaCache::is_exhausted, (cache,), exhausted),
        call_ensures(size_bytes, (len,), written),
    ensures
        made matches Some(c) ==> c@ == client(base@, token@),
        told@ == cache@.token,
        version@ == cache@.version,
        exhausted == cache@.exhausted,
        written@ == numbers::decimal(len as nat),
{
}

/// Calls and keys are named as stated.
pub proof fn law_calls_and_keys_are_named(
    call: &Call,
    name: &'static str,
    prefix: &str,
    index: String,
    pack: String,
    stamp: u64,
    run: Option<&str>,
    job: Option<&str>,
    key: String,
)
    requires
        call_ensures(Call::method, (call,), name),
        call_ensures(index_prefix, (prefix,), index),
        call_ensures(packed_prefix, (prefix,), pack),
        call_ensures(stamped_key, (prefix, stamp, run, job), key),
    ensures
        *call is Download ==> name@ == "GetCacheEntryDownloadURL"@,
        *call is Create ==> name@ == "CreateCacheEntry"@,
        *call is Finalize ==> name@ == "FinalizeCacheEntryUpload"@,
        index@ == prefix@ + "-index-"@,
        pack@ == prefix@ + "-pack-"@,
        key@ == stamped(prefix@, stamp, text::optional(run), text::optional(job)),
{
}

/// A service that refuses calls is asked for nothing: nothing is found there, and nothing stored.
pub proof fn law_nothing_is_asked_of_an_exhausted_service(
    cache: &GhaCache,
    key: &str,
    len: u64,
    run: Option<&str>,
    job: Option<&str>,
    got: Step,
    index: Step,
    pack: Step,
    put: Step,
    put_manifest: Step,
    put_packed: Step,
)
    requires
        cache@.exhausted,
        call_ensures(GhaCache::get, (cache, key), got),
        call_ensures(GhaCache::get_index, (cache, key), index),
        call_ensures(GhaCache::get_pack, (cache, key), pack),
        call_ensures(GhaCache::put, (cache, key, len), put),
        call_ensures(GhaCache::put_index, (cache, key, len, run, job), put_manifest),
        call_ensures(GhaCache::put_pack, (cache, key, len, run, job), put_packed),
    ensures
        got@ == StepModel::Done(EndingModel::Missing),
        index@ == StepModel::Done(EndingModel::Missing),
        pack@ == StepModel::Done(EndingModel::Missing),
        put@ == StepModel::Done(EndingModel::Unconfirmed),
        put_manifest@ == StepModel::Done(EndingModel::Unconfirmed),
        put_packed@ == StepModel::Done(EndingModel::Unconfirmed),
{
}

} // verus!
