//! The in-memory file cache: entries with a time to live, held in a SIEVE cache of
//! bounded capacity, and the responses served from them.
use vstd::prelude::*;
use bytes::BytesMut;
use sieve_cache::SieveCache;
use crate::http_range::{
    bytes_range, bytes_range_of, conditional_of, BadRangeError, ConditionalHeaders,
    ConditionalOutcome,
};

verus! {

/// Bytes in a mebibyte.
pub const MIB: u64 = 1048576;

/// Options of the in-memory files cache.
#[derive(Clone, Copy, Debug, PartialEq, Eq, Structural)]
pub struct MemCacheOpts {
    /// The maximum number of cache entries.
    pub max_size: usize,
    /// The maximum size per file in bytes.
    pub file_max_size: u64,
    /// The time to live per file in seconds.
    pub file_ttl: u64,
}

impl MemCacheOpts {
    /// Options from an entry capacity, a per-file limit in mebibytes and a TTL in seconds.
    pub fn new(max_size: usize, file_max_size: u64, file_ttl: u64) -> (r: Self)
        requires
            file_max_size <= u64::MAX / MIB,
        ensures
            r.max_size == max_size,
            r.file_max_size == MIB * file_max_size,
            r.file_ttl == file_ttl,
    {
        Self { max_size, file_max_size: MIB * file_max_size, file_ttl }
    }
}

/// The growable byte buffer of the `bytes` crate, opaque here; its contents are named
/// by `buffer_contents`.
#[verifier::external_type_specification]
#[verifier::external_body]
pub struct ExBytesMut(BytesMut);

/// The bytes a buffer holds.
pub uninterp spec fn buffer_contents(b: BytesMut) -> Seq<u8>;

/// Relies on `BytesMut::with_capacity`: a new buffer is empty.
#[verifier::external_body]
fn buffer_with_capacity(capacity: usize) -> (r: BytesMut)
    requires
        capacity <= isize::MAX,
    ensures
        buffer_contents(r) == Seq::<u8>::empty(),
{
    BytesMut::with_capacity(capacity)
}

/// Relies on `BytesMut::len`: the number of bytes held.
#[verifier::external_body]
fn buffer_len(b: &BytesMut) -> (r: usize)
    ensures
        r == buffer_contents(*b).len(),
{
    b.len()
}

/// Relies on `BytesMut::extend_from_slice`: the bytes are appended at the end.
#[verifier::external_body]
fn buffer_extend(b: &mut BytesMut, bytes: &[u8])
    requires
        buffer_contents(*old(b)).len() + bytes@.len() <= usize::MAX,
    ensures
        buffer_contents(*final(b)) == buffer_contents(*old(b)) + bytes@,
{
    b.extend_from_slice(bytes)
}

/// Relies on `BytesMut`'s view as a byte slice: a copy of the bytes in `[start, end)`.
#[verifier::external_body]
fn buffer_copy_range(b: &BytesMut, start: usize, end: usize) -> (r: Vec<u8>)
    requires
        start <= end <= buffer_contents(*b).len(),
    ensures
        r@ == buffer_contents(*b).subrange(start as int, end as int),
{
    b[start..end].to_vec()
}

/// A file held in memory.
#[derive(Debug)]
pub struct MemFile {
    /// Bytes of the file read so far.
    pub data: BytesMut,
    /// Read chunk size chosen for the file.
    pub buf_size: usize,
    /// Value of the `Content-Type` header for the file.
    pub content_type: String,
    /// Last modification time, in seconds since the Unix epoch.
    pub last_modified: Option<u64>,
    /// Instant after which the entry has expired, in seconds.
    pub expiration: u64,
}

impl MemFile {
    /// An empty entry for a file of `len` bytes, created at `now`, that lives `file_ttl` seconds.
    pub fn new(
        len: u64,
        buf_size: usize,
        content_type: String,
        last_modified: Option<u64>,
        file_ttl: u64,
        now: u64,
    ) -> (r: Self)
        requires
            now + file_ttl <= u64::MAX,
            len <= isize::MAX,
        ensures
            r.content() == Seq::<u8>::empty(),
            r.buf_size == buf_size,
            r.content_type == content_type,
            r.last_modified == last_modified,
            r.expiration == now + file_ttl,
    {
        Self {
            data: buffer_with_capacity(len as usize),
            buf_size,
            content_type,
            last_modified,
            expiration: now + file_ttl,
        }
    }

    /// The bytes of the file held so far.
    pub open spec fn content(&self) -> Seq<u8> {
        buffer_contents(self.data)
    }

    pub open spec fn expired_at(&self, now: u64) -> bool {
        now > self.expiration
    }

    /// Whether the entry has expired at time `now`.
    pub fn has_expired(&self, now: u64) -> (r: bool)
        ensures
            r == self.expired_at(now),
    {
        now > self.expiration
    }
}

/// What `b` becomes from `a` when `bytes` are appended to its content.
pub open spec fn appended_file(a: MemFile, b: MemFile, bytes: Seq<u8>) -> bool {
    &&& b.content() == a.content() + bytes
    &&& b.buf_size == a.buf_size
    &&& b.content_type == a.content_type
    &&& b.last_modified == a.last_modified
    &&& b.expiration == a.expiration
}

/// The entries of a SIEVE cache, by key.
pub uninterp spec fn sieve_entries(c: SieveCache<String, MemFile>) -> Map<Seq<char>, MemFile>;

/// The keys of a SIEVE cache whose visited bit is set.
pub uninterp spec fn sieve_visited(c: SieveCache<String, MemFile>) -> Set<Seq<char>>;

/// The capacity a SIEVE cache was made with.
pub uninterp spec fn sieve_capacity(c: SieveCache<String, MemFile>) -> nat;

/// The SIEVE cache of the `sieve_cache` crate, opaque here; its entries, visited bits
/// and capacity are named by `sieve_entries`, `sieve_visited` and `sieve_capacity`.
#[verifier::external_type_specification]
#[verifier::external_body]
#[verifier::reject_recursive_types(K)]
#[verifier::reject_recursive_types(V)]
#[verifier::reject_recursive_types(S)]
pub struct ExSieveCache<K: Eq + std::hash::Hash + Clone, V, S: std::hash::BuildHasher>(
    SieveCache<K, V, S>,
);

/// Relies on `SieveCache::new`: it fails exactly on a zero capacity, else the cache is empty.
#[verifier::external_body]
fn sieve_new(capacity: usize) -> (r: Option<SieveCache<String, MemFile>>)
    ensures
        match r {
            Some(c) => capacity > 0 && sieve_entries(c) == Map::<Seq<char>, MemFile>::empty()
                && sieve_visited(c) == Set::<Seq<char>>::empty() && sieve_capacity(c) == capacity,
            None => capacity == 0,
        },
{
    match SieveCache::new(capacity) {
        Ok(c) => Some(c),
        Err(_) => None,
    }
}

/// Relies on `SieveCache::get`: reports whether the key is present and sets its visited bit.
#[verifier::external_body]
fn sieve_touch(c: &mut SieveCache<String, MemFile>, key: &str) -> (r: bool)
    ensures
        r == sieve_entries(*old(c)).contains_key(key@),
        sieve_entries(*final(c)) == sieve_entries(*old(c)),
        sieve_capacity(*final(c)) == sieve_capacity(*old(c)),
        sieve_visited(*final(c)) == (if r {
            sieve_visited(*old(c)).insert(key@)
        } else {
            sieve_visited(*old(c))
        }),
{
    c.get(key).is_some()
}

/// Relies on `SieveCache::get_key_value`: the entry of a key, without touching its visited bit.
#[verifier::external_body]
fn sieve_peek<'a>(c: &'a SieveCache<String, MemFile>, key: &str) -> (r: Option<&'a MemFile>)
    ensures
        match r {
            Some(v) => sieve_entries(*c).contains_key(key@) && *v == sieve_entries(*c)[key@],
            None => !sieve_entries(*c).contains_key(key@),
        },
{
    c.get_key_value(key).map(|(_, v)| v)
}

/// Relies on `SieveCache::get_mut`: mutable access to the entry of a key, which sets its
/// visited bit.
#[verifier::external_body]
fn sieve_get_mut<'a>(c: &'a mut SieveCache<String, MemFile>, key: &str) -> (r: Option<
    &'a mut MemFile,
>)
    ensures
        sieve_capacity(*final(c)) == sieve_capacity(*old(c)),
        match r {
            Some(v) => {
                &&& sieve_entries(*old(c)).contains_key(key@)
                &&& *v == sieve_entries(*old(c))[key@]
                &&& sieve_entries(*final(c)) == sieve_entries(*old(c)).insert(key@, *final(v))
                &&& sieve_visited(*final(c)) == sieve_visited(*old(c)).insert(key@)
            },
            None => {
                &&& !sieve_entries(*old(c)).contains_key(key@)
                &&& sieve_entries(*final(c)) == sieve_entries(*old(c))
                &&& sieve_visited(*final(c)) == sieve_visited(*old(c))
            },
        },
{
    c.get_mut(key)
}

/// Relies on `SieveCache::remove`: takes a key's entry out, other visited bits untouched.
#[verifier::external_body]
fn sieve_remove(c: &mut SieveCache<String, MemFile>, key: &str) -> (r: Option<MemFile>)
    ensures
        sieve_entries(*final(c)) == sieve_entries(*old(c)).remove(key@),
        sieve_visited(*final(c)) == sieve_visited(*old(c)).remove(key@),
        sieve_capacity(*final(c)) == sieve_capacity(*old(c)),
        r == (if sieve_entries(*old(c)).contains_key(key@) {
            Some(sieve_entries(*old(c))[key@])
        } else {
            None
        }),
{
    c.remove(key)
}

/// Relies on `SieveCache::insert`: an existing key gets the new value and its visited bit
/// set; a new key enters unvisited, after one eviction when the cache is full. The
/// eviction scan clears visited bits as it passes them and takes the first unvisited
/// entry, so an unvisited entry is evicted whenever one exists.
#[verifier::external_body]
fn sieve_insert(c: &mut SieveCache<String, MemFile>, key: String, value: MemFile) -> (r: bool)
    ensures
        r == !sieve_entries(*old(c)).contains_key(key@),
        sieve_capacity(*final(c)) == sieve_capacity(*old(c)),
        !r ==> sieve_entries(*final(c)) == sieve_entries(*old(c)).insert(key@, value)
            && sieve_visited(*final(c)) == sieve_visited(*old(c)).insert(key@),
        r && sieve_entries(*old(c)).len() < sieve_capacity(*old(c)) ==> sieve_entries(*final(c))
            == sieve_entries(*old(c)).insert(key@, value) && sieve_visited(*final(c))
            == sieve_visited(*old(c)),
        r && sieve_entries(*old(c)).len() >= sieve_capacity(*old(c)) ==> exists|e: Seq<char>|
            #[trigger] sieve_entries(*old(c)).contains_key(e) && sieve_entries(*final(c))
                == sieve_entries(*old(c)).remove(e).insert(key@, value) && sieve_visited(
                *final(c),
            ).subset_of(sieve_visited(*old(c)).remove(e)) && ((exists|u: Seq<char>|
                sieve_entries(*old(c)).contains_key(u) && !sieve_visited(*old(c)).contains(u))
                ==> !sieve_visited(*old(c)).contains(e)),
{
    c.insert(key, value)
}

/// A `Content-Range` response header.
#[derive(Clone, Copy, Debug, PartialEq, Eq, Structural)]
pub enum ContentRange {
    /// `bytes first-last/complete`.
    Bytes { first: u64, last: u64, complete: u64 },
    /// `bytes */complete`.
    Unsatisfied { complete: u64 },
}

/// A response to a file request: status, headers and a materialized body.
#[derive(Debug)]
pub struct FileResponse {
    pub status: u16,
    pub content_range: Option<ContentRange>,
    pub content_length: Option<u64>,
    pub content_type: Option<String>,
    pub accept_ranges: bool,
    pub last_modified: Option<u64>,
    pub body: Vec<u8>,
}

/// The mathematical content of a [`FileResponse`].
pub struct ResponseView {
    pub status: u16,
    pub content_range: Option<ContentRange>,
    pub content_length: Option<u64>,
    pub content_type: Option<Seq<char>>,
    pub accept_ranges: bool,
    pub last_modified: Option<u64>,
    pub body: Seq<u8>,
}

impl View for FileResponse {
    type V = ResponseView;

    open spec fn view(&self) -> ResponseView {
        ResponseView {
            status: self.status,
            content_range: self.content_range,
            content_length: self.content_length,
            content_type: match self.content_type {
                Some(s) => Some(s@),
                None => None,
            },
            accept_ranges: self.accept_ranges,
            last_modified: self.last_modified,
            body: self.body@,
        }
    }
}

pub open spec fn bodyless_response(status: u16) -> ResponseView {
    ResponseView {
        status,
        content_range: None,
        content_length: None,
        content_type: None,
        accept_ranges: false,
        last_modified: None,
        body: Seq::empty(),
    }
}

pub open spec fn opt_view(range: Option<&[u8]>) -> Option<Seq<u8>> {
    match range {
        Some(v) => Some(v@),
        None => None,
    }
}

/// The interval of a resource of `len` bytes that a request with a body selects.
pub open spec fn served_interval_of(
    len: nat,
    last_modified: Option<u64>,
    h: ConditionalHeaders,
    range: Option<Seq<u8>>,
) -> Option<(nat, nat)> {
    match conditional_of(h, last_modified) {
        ConditionalOutcome::WithBody(use_range) => bytes_range_of(
            if use_range {
                range
            } else {
                None
            },
            len,
        ),
        _ => None,
    }
}

/// Status and headers of the response for a resource of `len` bytes, with an empty
/// body: 304 or 412 as the conditional headers decide; else 416 with
/// `Content-Range: bytes */len` for a bad range; else 200 when the selected interval is
/// the whole resource, and 206 with the interval's `Content-Range` otherwise.
pub open spec fn head_of(
    len: nat,
    content_type: Seq<char>,
    last_modified: Option<u64>,
    h: ConditionalHeaders,
    range: Option<Seq<u8>>,
) -> ResponseView {
    match conditional_of(h, last_modified) {
        ConditionalOutcome::NotModified => bodyless_response(304),
        ConditionalOutcome::PreconditionFailed => bodyless_response(412),
        ConditionalOutcome::WithBody(use_range) => {
            match bytes_range_of(if use_range { range } else { None }, len) {
                None => ResponseView {
                    content_range: Some(ContentRange::Unsatisfied { complete: len as u64 }),
                    ..bodyless_response(416)
                },
                Some((s, e)) => ResponseView {
                    status: if e - s == len { 200 } else { 206 },
                    content_range: if e - s == len {
                        None
                    } else {
                        Some(
                            ContentRange::Bytes {
                                first: s as u64,
                                last: (e - 1) as u64,
                                complete: len as u64,
                            },
                        )
                    },
                    content_length: Some((e - s) as u64),
                    content_type: Some(content_type),
                    accept_ranges: true,
                    last_modified,
                    body: Seq::empty(),
                },
            }
        },
    }
}

/// The response for a file with content `data`: the head for its length, with the
/// selected interval of the content as body.
pub open spec fn response_of(
    data: Seq<u8>,
    content_type: Seq<char>,
    last_modified: Option<u64>,
    h: ConditionalHeaders,
    range: Option<Seq<u8>>,
) -> ResponseView {
    ResponseView {
        body: match served_interval_of(data.len(), last_modified, h, range) {
            Some((s, e)) => data.subrange(s as int, e as int),
            None => Seq::empty(),
        },
        ..head_of(data.len(), content_type, last_modified, h, range)
    }
}

/// Status and headers of the response to a request for a resource of `len` bytes,
/// with an empty body, and the interval `[start, end)` of the resource to send as body.
pub fn response_head(
    len: u64,
    content_type: &String,
    last_modified: Option<u64>,
    h: &ConditionalHeaders,
    range: Option<&[u8]>,
) -> (r: (FileResponse, Option<(u64, u64)>))
    ensures
        r.0@ == head_of(len as nat, content_type@, last_modified, *h, opt_view(range)),
        match served_interval_of(len as nat, last_modified, *h, opt_view(range)) {
            Some((s, e)) => r.1 == Some((s as u64, e as u64)) && s <= e <= len,
            None => r.1 is None,
        },
{
    match h.check(last_modified) {
        ConditionalOutcome::NotModified => (bodyless(304), None),
        ConditionalOutcome::PreconditionFailed => (bodyless(412), None),
        ConditionalOutcome::WithBody(use_range) => {
            let rng = if use_range {
                range
            } else {
                None
            };
            assert(opt_view(rng) == (if use_range {
                opt_view(range)
            } else {
                None
            }));
            match bytes_range(rng, len) {
                Ok((start, end)) => {
                    let sub_len = end - start;
                    let content_range = if sub_len != len {
                        Some(ContentRange::Bytes { first: start, last: end - 1, complete: len })
                    } else {
                        None
                    };
                    let head = FileResponse {
                        status: if sub_len != len {
                            206
                        } else {
                            200
                        },
                        content_range,
                        content_length: Some(sub_len),
                        content_type: Some(content_type.clone()),
                        accept_ranges: true,
                        last_modified,
                        body: Vec::new(),
                    };
                    (head, Some((start, end)))
                },
                Err(BadRangeError) => {
                    let mut resp = bodyless(416);
                    resp.content_range = Some(ContentRange::Unsatisfied { complete: len });
                    (resp, None)
                },
            }
        },
    }
}

fn bodyless(status: u16) -> (r: FileResponse)
    ensures
        r@ == bodyless_response(status),
{
    FileResponse {
        status,
        content_range: None,
        content_length: None,
        content_type: None,
        accept_ranges: false,
        last_modified: None,
        body: Vec::new(),
    }
}

impl MemFile {
    /// The response to a request with conditional headers `h` and range header `range`,
    /// served from the cached content.
    pub fn response_body(&self, h: &ConditionalHeaders, range: Option<&[u8]>) -> (r:
        FileResponse)
        ensures
            r@ == response_of(
                self.content(),
                self.content_type@,
                self.last_modified,
                *h,
                opt_view(range),
            ),
    {
        let (mut resp, interval) = response_head(
            buffer_len(&self.data) as u64,
            &self.content_type,
            self.last_modified,
            h,
            range,
        );
        if let Some((start, end)) = interval {
            resp.body = buffer_copy_range(&self.data, start as usize, end as usize);
        }
        resp
    }
}

/// Errors of the cache store.
#[derive(Clone, Copy, Debug, PartialEq, Eq, Structural)]
pub enum CacheError {
    /// The store was initialized already.
    AlreadyInitialized,
    /// The store is used before its initialization.
    NotInitialized,
    /// The store was configured with a capacity of zero.
    ZeroCapacity,
}

/// The entry a lookup at time `now` finds: present and not expired.
pub open spec fn lookup_of(entries: Map<Seq<char>, MemFile>, key: Seq<char>, now: u64) -> Option<
    MemFile,
> {
    if entries.contains_key(key) && !entries[key].expired_at(now) {
        Some(entries[key])
    } else {
        None
    }
}

/// The cache store: uninitialized until configured once, then a SIEVE cache of
/// bounded capacity from file keys to entries.
pub struct MemCache {
    store: Option<SieveCache<String, MemFile>>,
    file_max_size: u64,
    file_ttl: u64,
}

impl MemCache {
    pub closed spec fn is_initialized(&self) -> bool {
        self.store is Some
    }

    /// The entries, by key.
    pub closed spec fn entries(&self) -> Map<Seq<char>, MemFile> {
        match self.store {
            Some(c) => sieve_entries(c),
            None => Map::empty(),
        }
    }

    /// The keys whose visited bit is set.
    pub closed spec fn visited(&self) -> Set<Seq<char>> {
        match self.store {
            Some(c) => sieve_visited(c),
            None => Set::empty(),
        }
    }

    /// The maximum number of entries.
    pub closed spec fn capacity(&self) -> nat {
        match self.store {
            Some(c) => sieve_capacity(c),
            None => 0,
        }
    }

    pub closed spec fn max_file_size(&self) -> u64 {
        self.file_max_size
    }

    pub closed spec fn ttl(&self) -> u64 {
        self.file_ttl
    }

    /// Well-formedness: finitely many entries, no more than the capacity, and visited
    /// bits only on present keys.
    pub closed spec fn wf(&self) -> bool {
        match self.store {
            Some(c) => {
                &&& sieve_entries(c).dom().finite()
                &&& sieve_entries(c).len() <= sieve_capacity(c)
                &&& sieve_capacity(c) > 0
                &&& sieve_visited(c).subset_of(sieve_entries(c).dom())
            },
            None => true,
        }
    }

    /// A store that is not initialized yet.
    pub fn new() -> (r: Self)
        ensures
            r.wf(),
            !r.is_initialized(),
            r.entries() == Map::<Seq<char>, MemFile>::empty(),
    {
        MemCache { store: None, file_max_size: 0, file_ttl: 0 }
    }

    /// Initializes the store with the given options; this succeeds once.
    pub fn init_store(&mut self, opts: &MemCacheOpts) -> (r: Result<(), CacheError>)
        requires
            old(self).wf(),
        ensures
            final(self).wf(),
            old(self).is_initialized() ==> r == Err::<(), CacheError>(
                CacheError::AlreadyInitialized,
            ) && *final(self) == *old(self),
            !old(self).is_initialized() && opts.max_size == 0 ==> r == Err::<(), CacheError>(
                CacheError::ZeroCapacity,
            ) && !final(self).is_initialized(),
            !old(self).is_initialized() && opts.max_size > 0 ==> {
                &&& r == Ok::<(), CacheError>(())
                &&& final(self).is_initialized()
                &&& final(self).entries() == Map::<Seq<char>, MemFile>::empty()
                &&& final(self).visited() == Set::<Seq<char>>::empty()
                &&& final(self).capacity() == opts.max_size
                &&& final(self).max_file_size() == opts.file_max_size
                &&& final(self).ttl() == opts.file_ttl
            },
    {
        if self.store.is_some() {
            return Err(CacheError::AlreadyInitialized);
        }
        match sieve_new(opts.max_size) {
            Some(c) => {
                self.store = Some(c);
                self.file_max_size = opts.file_max_size;
                self.file_ttl = opts.file_ttl;
                Ok(())
            },
            None => Err(CacheError::ZeroCapacity),
        }
    }

    /// The per-file size limit the store was configured with.
    pub fn file_max_size(&self) -> (r: u64)
        ensures
            r == self.max_file_size(),
    {
        self.file_max_size
    }

    /// The time to live, in seconds, the store was configured with.
    pub fn file_ttl(&self) -> (r: u64)
        ensures
            r == self.ttl(),
    {
        self.file_ttl
    }

    /// Whether a file of `len` bytes may be cached: the store is initialized and the
    /// file is within the per-file size limit.
    pub fn is_cacheable(&self, len: u64) -> (r: bool)
        ensures
            r == (self.is_initialized() && len <= self.max_file_size()),
    {
        self.store.is_some() && len <= self.file_max_size
    }

    /// Looks `key` up at time `now`: true when its entry is present and not expired,
    /// which sets its visited bit. An expired entry found is removed.
    pub fn get(&mut self, key: &str, now: u64) -> (r: Result<bool, CacheError>)
        requires
            old(self).wf(),
        ensures
            final(self).wf(),
            final(self).is_initialized() == old(self).is_initialized(),
            final(self).capacity() == old(self).capacity(),
            final(self).max_file_size() == old(self).max_file_size(),
            final(self).ttl() == old(self).ttl(),
            !old(self).is_initialized() ==> r == Err::<bool, CacheError>(
                CacheError::NotInitialized,
            ),
            old(self).is_initialized() ==> r == Ok::<bool, CacheError>(
                lookup_of(old(self).entries(), key@, now) is Some,
            ),
            lookup_of(old(self).entries(), key@, now) is Some ==> final(self).entries() == old(
                self,
            ).entries() && final(self).visited() == old(self).visited().insert(key@),
            lookup_of(old(self).entries(), key@, now) is None ==> final(self).entries() == old(
                self,
            ).entries().remove(key@) && final(self).visited() == old(self).visited().remove(
                key@,
            ),
    {
        match &mut self.store {
            None => Err(CacheError::NotInitialized),
            Some(c) => {
                let found = sieve_touch(c, key);
                if !found {
                    assert(sieve_entries(*c).remove(key@) =~= sieve_entries(*c));
                    assert(sieve_visited(*c).remove(key@) =~= sieve_visited(*c));
                    return Ok(false);
                }
                let expired = match sieve_peek(c, key) {
                    Some(f) => f.has_expired(now),
                    None => false,
                };
                if expired {
                    let _ = sieve_remove(c, key);
                    Ok(false)
                } else {
                    Ok(true)
                }
            },
        }
    }

    /// Inserts or replaces the entry of `key`; at capacity a new key first evicts one
    /// entry. The result tells whether the key was new.
    pub fn insert(&mut self, key: String, file: MemFile) -> (r: Result<bool, CacheError>)
        requires
            old(self).wf(),
        ensures
            final(self).wf(),
            final(self).max_file_size() == old(self).max_file_size(),
            final(self).ttl() == old(self).ttl(),
            !old(self).is_initialized() ==> r == Err::<bool, CacheError>(
                CacheError::NotInitialized,
            ) && *final(self) == *old(self),
            old(self).is_initialized() ==> r == Ok::<bool, CacheError>(
                !old(self).entries().contains_key(key@),
            ),
            inserted(*old(self), *final(self), key@, file),
    {
        match &mut self.store {
            None => Err(CacheError::NotInitialized),
            Some(c) => {
                let ghost before = *c;
                let is_new = sieve_insert(c, key, file);
                proof {
                    let after = *c;
                    if is_new && sieve_entries(before).len() >= sieve_capacity(before) {
                        let e = choose|e: Seq<char>|
                            #[trigger] sieve_entries(before).contains_key(e) && sieve_entries(
                                after,
                            ) == sieve_entries(before).remove(e).insert(key@, file)
                                && sieve_visited(after).subset_of(
                                sieve_visited(before).remove(e),
                            ) && ((exists|u: Seq<char>|
                                sieve_entries(before).contains_key(u) && !sieve_visited(
                                    before,
                                ).contains(u)) ==> !sieve_visited(before).contains(e));
                        assert(sieve_entries(before).remove(e).len() == sieve_entries(before).len()
                            - 1);
                        assert(!sieve_entries(before).remove(e).contains_key(key@));
                    }
                }
                Ok(is_new)
            },
        }
    }

    /// Appends `bytes` to the content of the entry of `key`, if there is one; this sets
    /// its visited bit. Never creates an entry.
    pub fn append(&mut self, key: &str, bytes: &[u8]) -> (r: bool)
        requires
            old(self).wf(),
        ensures
            final(self).wf(),
            final(self).is_initialized() == old(self).is_initialized(),
            final(self).capacity() == old(self).capacity(),
            final(self).max_file_size() == old(self).max_file_size(),
            final(self).ttl() == old(self).ttl(),
            appended(*old(self), *final(self), key@, bytes@, r),
    {
        match &mut self.store {
            None => false,
            Some(c) => {
                let ghost before = *c;
                let done = match sieve_get_mut(c, key) {
                    Some(f) => {
                        if buffer_len(&f.data) <= usize::MAX - bytes.len() {
                            buffer_extend(&mut f.data, bytes);
                            true
                        } else {
                            false
                        }
                    },
                    None => false,
                };
                proof {
                    if done {
                        assert(sieve_entries(*c).dom() =~= sieve_entries(before).dom());
                    } else {
                        assert(sieve_entries(*c) =~= sieve_entries(before));
                    }
                }
                done
            },
        }
    }

    /// Serves `key` at time `now` from the cache: `None` on a miss, else the response
    /// to conditional headers `h` and range header `range`. The lookup acts as [`Self::get`].
    pub fn serve(
        &mut self,
        key: &str,
        now: u64,
        h: &ConditionalHeaders,
        range: Option<&[u8]>,
    ) -> (r: Result<Option<FileResponse>, CacheError>)
        requires
            old(self).wf(),
        ensures
            final(self).wf(),
            final(self).is_initialized() == old(self).is_initialized(),
            final(self).capacity() == old(self).capacity(),
            !old(self).is_initialized() ==> r matches Err(CacheError::NotInitialized),
            old(self).is_initialized() ==> match lookup_of(old(self).entries(), key@, now) {
                Some(f) => r matches Ok(Some(resp)) && resp@ == response_of(
                    f.content(),
                    f.content_type@,
                    f.last_modified,
                    *h,
                    opt_view(range),
                ),
                None => r matches Ok(None),
            },
            lookup_of(old(self).entries(), key@, now) is Some ==> final(self).entries() == old(
                self,
            ).entries(),
            lookup_of(old(self).entries(), key@, now) is None ==> final(self).entries() == old(
                self,
            ).entries().remove(key@),
    {
        match self.get(key, now) {
            Err(e) => Err(e),
            Ok(false) => Ok(None),
            Ok(true) => match &self.store {
                Some(c) => match sieve_peek(c, key) {
                    Some(f) => Ok(Some(f.response_body(h, range))),
                    None => Ok(None),
                },
                None => Err(CacheError::NotInitialized),
            },
        }
    }
}

/// The relation of the store before and after inserting `file` under `key`: the entry
/// is there afterwards; an existing key only has its entry replaced; below capacity
/// nothing else changes; at capacity exactly one other entry is evicted, an unvisited
/// one whenever there is one.
pub open spec fn inserted(before: MemCache, after: MemCache, key: Seq<char>, file: MemFile) -> bool {
    &&& after.is_initialized() == before.is_initialized()
    &&& after.capacity() == before.capacity()
    &&& !before.is_initialized() ==> after.entries() == before.entries()
    &&& before.is_initialized() ==> after.entries().contains_key(key) && after.entries()[key]
        == file
    &&& before.is_initialized() && before.entries().contains_key(key) ==> after.entries()
        == before.entries().insert(key, file) && after.visited() == before.visited().insert(key)
    &&& before.is_initialized() && !before.entries().contains_key(key) && before.entries().len()
        < before.capacity() ==> after.entries() == before.entries().insert(key, file)
        && after.visited() == before.visited()
    &&& before.is_initialized() && !before.entries().contains_key(key) && before.entries().len()
        >= before.capacity() ==> exists|e: Seq<char>|
        #[trigger] before.entries().contains_key(e) && after.entries() == before.entries().remove(
            e,
        ).insert(key, file) && after.visited().subset_of(before.visited().remove(e)) && ((exists|
            u: Seq<char>,
        | before.entries().contains_key(u) && !before.visited().contains(u))
            ==> !before.visited().contains(e))
}

/// Whether appending `bytes` to the entry of `key` succeeds: the entry exists and its
/// length stays within `usize`.
pub open spec fn append_succeeds(before: MemCache, key: Seq<char>, bytes: Seq<u8>) -> bool {
    before.entries().contains_key(key) && before.entries()[key].content().len() + bytes.len()
        <= usize::MAX
}

/// The relation of the store before and after appending `bytes` to the entry of `key`,
/// where `ok` says whether it was done: it is, exactly when that succeeds; then only
/// that entry's content grows and its visited bit is set; else nothing changes but,
/// for an entry that exists, its visited bit.
pub open spec fn appended(
    before: MemCache,
    after: MemCache,
    key: Seq<char>,
    bytes: Seq<u8>,
    ok: bool,
) -> bool {
    &&& ok == append_succeeds(before, key, bytes)
    &&& ok ==> {
        &&& after.entries().dom() == before.entries().dom()
        &&& appended_file(before.entries()[key], after.entries()[key], bytes)
        &&& forall|k: Seq<char>|
            k != key && #[trigger] before.entries().contains_key(k) ==> after.entries()[k]
                == before.entries()[k]
        &&& after.visited() == before.visited().insert(key)
    }
    &&& !ok ==> after.entries() == before.entries() && after.visited().subset_of(
        before.visited().insert(key),
    ) && before.visited().subset_of(after.visited())
}

/// An entry inserted into an initialized store is found by a lookup made before it
/// expires, with the content, content type and last-modified time it was inserted with.
pub proof fn lemma_insert_then_get(
    before: MemCache,
    after: MemCache,
    key: Seq<char>,
    file: MemFile,
    now: u64,
)
    requires
        before.is_initialized(),
        inserted(before, after, key, file),
        !file.expired_at(now),
    ensures
        lookup_of(after.entries(), key, now) == Some(file),
        lookup_of(after.entries(), key, now)->0.content() == file.content(),
        lookup_of(after.entries(), key, now)->0.content_type@ == file.content_type@,
        lookup_of(after.entries(), key, now)->0.last_modified == file.last_modified,
{
}

/// An entry created at time `created` with time to live `ttl` is found by a lookup at
/// any time before `created + ttl`, and is absent at any time after it.
pub proof fn lemma_ttl(
    entries: Map<Seq<char>, MemFile>,
    key: Seq<char>,
    created: u64,
    ttl: u64,
    now: u64,
)
    requires
        entries.contains_key(key),
        entries[key].expiration == created + ttl,
    ensures
        now < created + ttl ==> lookup_of(entries, key, now) == Some(entries[key]),
        now > created + ttl ==> lookup_of(entries, key, now) is None,
{
}

/// Inserting a key into a store with room left evicts nothing.
pub proof fn lemma_insert_below_capacity(
    before: MemCache,
    after: MemCache,
    key: Seq<char>,
    file: MemFile,
)
    requires
        before.wf(),
        before.is_initialized(),
        before.entries().len() < before.capacity(),
        inserted(before, after, key, file),
    ensures
        forall|k: Seq<char>| #[trigger]
            before.entries().contains_key(k) ==> after.entries().contains_key(k),
{
}

/// Inserting a new key into a full store evicts exactly one entry: the store stays at
/// its capacity and keeps every earlier key but one, and that one was unvisited
/// whenever some present key was unvisited.
pub proof fn lemma_full_insert_evicts_one(
    before: MemCache,
    after: MemCache,
    key: Seq<char>,
    file: MemFile,
)
    requires
        before.wf(),
        before.is_initialized(),
        before.entries().len() == before.capacity(),
        !before.entries().contains_key(key),
        inserted(before, after, key, file),
    ensures
        after.entries().dom().finite(),
        after.entries().len() == before.capacity(),
        exists|e: Seq<char>|
            #[trigger] before.entries().contains_key(e) && !after.entries().contains_key(e) && (
            forall|k: Seq<char>|
                #[trigger] before.entries().contains_key(k) && k != e
                    ==> after.entries().contains_key(k)) && ((exists|u: Seq<char>|
                before.entries().contains_key(u) && !before.visited().contains(u))
                ==> !before.visited().contains(e)),
{
    let e = choose|e: Seq<char>|
        #[trigger] before.entries().contains_key(e) && after.entries() == before.entries().remove(
            e,
        ).insert(key, file) && after.visited().subset_of(before.visited().remove(e)) && ((exists|
            u: Seq<char>,
        | before.entries().contains_key(u) && !before.visited().contains(u))
            ==> !before.visited().contains(e));
    assert(e != key);
    assert(before.entries().remove(e).len() == before.entries().len() - 1);
    assert(!before.entries().contains_key(key));
    assert(!after.entries().contains_key(e));
}

/// A request whose `If-Modified-Since` is at or after the last modification, and whose
/// `If-Unmodified-Since`, if any, is met, is answered 304 with no body, whatever its
/// range header.
pub proof fn lemma_not_modified(
    data: Seq<u8>,
    content_type: Seq<char>,
    modified: u64,
    h: ConditionalHeaders,
    range: Option<Seq<u8>>,
)
    requires
        h.if_modified_since matches Some(since) && modified <= since,
        h.if_unmodified_since matches Some(since) ==> modified <= since,
    ensures
        response_of(data, content_type, Some(modified), h, range) == bodyless_response(304),
        response_of(data, content_type, Some(modified), h, range).body.len() == 0,
{
}

/// Serving one cached entry twice with the same headers gives identical responses.
pub proof fn lemma_response_idempotent(
    file: MemFile,
    h: ConditionalHeaders,
    range: Option<Seq<u8>>,
    first: FileResponse,
    second: FileResponse,
)
    requires
        first@ == response_of(file.content(), file.content_type@, file.last_modified, h, range),
        second@ == response_of(file.content(), file.content_type@, file.last_modified, h, range),
    ensures
        first@ == second@,
        first.body@ == second.body@,
{
}

} // verus!
