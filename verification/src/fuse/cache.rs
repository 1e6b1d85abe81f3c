//! The range cache: which bytes of a file are to be fetched before a read
//! can be served from the local copy, and which are fetched ahead of time
//! when a file of sound, film or picture is opened.
use vstd::prelude::*;
use vstd::string::*;
use vstd::utf8::encode_utf8;
use crate::db::model::{AttrsModel, StoreModel};
use crate::db::repository::MetadataRepository;
use crate::fuse::attr::non_negative;
use crate::fuse::filesystem::{
    is_multimedia_mime, shortcut_name, FsError, GDriveFS, ReplyOpen,
};
use crate::fuse::shortcuts::{generate_html, html_spec, is_workspace_file, is_workspace_mime};
use crate::ranges::{covered_by, covers};

verus! {

/// Files below this size are fetched whole when they are opened.
pub const SMALL_FILE_THRESHOLD: u64 = 10485760;

/// Files below this size are fetched in one piece.
pub const SINGLE_DOWNLOAD_THRESHOLD: u64 = 5242880;

/// The size of the pieces in which a larger file is fetched.
pub const CHUNK_SIZE: u64 = 2097152;

/// The number of pieces that are fetched at a time.
pub const MAX_CONCURRENT: usize = 4;

/// The size of the head of a large file that is fetched ahead.
pub const HEADER_SIZE: u64 = 1048576;

/// The size of the tail of a large file that is fetched ahead.
pub const TAIL_SIZE: u64 = 262144;

/// What is fetched ahead of time when a file is opened.
#[derive(Debug, Clone, Copy, PartialEq, Eq, Structural)]
pub enum PrefetchKind {
    /// Nothing.
    Nothing,
    /// The whole file.
    EntireFile,
    /// The first and the last bytes of the file.
    HeadAndTail,
}

/// What is to be fetched ahead of time, and of which remote file.
#[derive(Debug)]
pub struct Prefetch {
    pub kind: PrefetchKind,
    pub remote_id: String,
    pub file_size: u64,
}

/// What is fetched ahead of time when a file with the attributes `a` is
/// opened: for sound, film and pictures the whole file while it is below 10
/// MiB, else its head and tail; nothing for other files, for directories,
/// for empty files, and where the local copy is complete already.
pub open spec fn prefetch_kind_spec(
    a: AttrsModel,
    has_remote_id: bool,
    blob_len: Option<u64>,
) -> PrefetchKind {
    let size = non_negative(a.size);
    if a.mime_type is Some && is_multimedia_mime(a.mime_type->0) && !a.is_dir && size > 0
        && has_remote_id && blob_len != Some(size) {
        if size < SMALL_FILE_THRESHOLD {
            PrefetchKind::EntireFile
        } else {
            PrefetchKind::HeadAndTail
        }
    } else {
        PrefetchKind::Nothing
    }
}

/// The bytes of `data` from `offset` on, at most `size` of them.
pub open spec fn slice_spec(data: Seq<u8>, offset: u64, size: u32) -> Seq<u8> {
    if offset >= data.len() {
        Seq::empty()
    } else if offset + size >= data.len() {
        data.subrange(offset as int, data.len() as int)
    } else {
        data.subrange(offset as int, offset + size)
    }
}

/// The number of bytes that a read of `size` bytes at `offset` gives of a
/// file of `file_size` bytes: it stops at the end of the file.
pub open spec fn read_len_spec(offset: u64, size: u32, file_size: u64) -> u32 {
    if offset >= file_size {
        0
    } else if file_size - offset < size {
        (file_size - offset) as u32
    } else {
        size
    }
}

/// The last byte that a read of `size > 0` bytes at `offset < file_size`
/// asks of a file of `file_size` bytes.
pub open spec fn requested_end(offset: u64, size: u32, file_size: u64) -> u64 {
    if offset + size - 1 >= file_size - 1 {
        (file_size - 1) as u64
    } else {
        (offset + size - 1) as u64
    }
}

/// `fetch` is what has to be fetched before `size` bytes at `offset` can be
/// read from the local copy of a file of `file_size` bytes: nothing for an
/// empty read, for a read behind the end, and where the local copy has the
/// length of the file; else the gaps that the cached chunks leave in the
/// range of the read, cut at the end of the file.
pub open spec fn is_fetch_plan(
    m: StoreModel,
    inode: u64,
    offset: u64,
    size: u32,
    file_size: u64,
    blob_len: Option<u64>,
    fetch: Seq<(u64, u64)>,
) -> bool {
    if size == 0 || offset >= file_size || blob_len == Some(file_size) {
        fetch.len() == 0
    } else {
        m.is_missing(inode, offset, requested_end(offset, size, file_size), fetch)
    }
}

/// How a read is served.
#[derive(Debug)]
pub enum ReadPlan {
    /// With these bytes: those of a shortcut.
    Inline(Vec<u8>),
    /// With nothing: the file is empty.
    Empty,
    /// From the local copy of the remote file `remote_id`, `length` bytes
    /// at `offset`, once the ranges `fetch` are fetched and recorded.
    FromCache { remote_id: String, fetch: Vec<(u64, u64)>, offset: u64, length: u32 },
}

/// The piece number `i` of a file that is fetched in pieces.
pub open spec fn chunk_at(i: int, file_size: u64) -> (u64, u64) {
    (
        (i * CHUNK_SIZE) as u64,
        if i * CHUNK_SIZE + CHUNK_SIZE - 1 >= file_size - 1 {
            (file_size - 1) as u64
        } else {
            (i * CHUNK_SIZE + CHUNK_SIZE - 1) as u64
        },
    )
}

/// The number of pieces in which a file is fetched.
pub open spec fn chunk_count(file_size: u64) -> int {
    if file_size == 0 {
        0
    } else if file_size < SINGLE_DOWNLOAD_THRESHOLD {
        1
    } else {
        (file_size + CHUNK_SIZE - 1) / (CHUNK_SIZE as int)
    }
}

/// The pieces in which a whole file is fetched: one piece below 5 MiB, else
/// pieces of 2 MiB, the last one shorter where the size asks for it.
pub open spec fn entire_file_chunks(file_size: u64) -> Seq<(u64, u64)> {
    Seq::new(
        chunk_count(file_size) as nat,
        |i: int|
            if file_size < SINGLE_DOWNLOAD_THRESHOLD {
                (0u64, (file_size - 1) as u64)
            } else {
                chunk_at(i, file_size)
            },
    )
}

/// The head of a file: its first MiB, or all of it where it is shorter.
pub open spec fn head_range(file_size: u64) -> (u64, u64) {
    (
        0,
        if file_size < HEADER_SIZE {
            (file_size - 1) as u64
        } else {
            (HEADER_SIZE - 1) as u64
        },
    )
}

/// The tail of a file: its last 256 KiB.
pub open spec fn tail_range(file_size: u64) -> (u64, u64) {
    ((file_size - TAIL_SIZE) as u64, (file_size - 1) as u64)
}

/// Some byte of the range `r` of `inode` is not cached.
pub open spec fn needs_fetch(m: StoreModel, inode: u64, r: (u64, u64)) -> bool {
    exists|x: int| r.0 <= x <= r.1 && !#[trigger] m.cached(inode, x)
}

/// The head and the tail of a file, each where some byte of it is not
/// cached; a file of up to 256 KiB has no tail of its own.
pub open spec fn head_and_tail_spec(m: StoreModel, inode: u64, file_size: u64) -> Seq<(u64, u64)> {
    if file_size == 0 {
        Seq::empty()
    } else {
        (if needs_fetch(m, inode, head_range(file_size)) {
            seq![head_range(file_size)]
        } else {
            Seq::empty()
        }) + (if file_size > TAIL_SIZE && needs_fetch(m, inode, tail_range(file_size)) {
            seq![tail_range(file_size)]
        } else {
            Seq::empty()
        })
    }
}

/// The list of gaps of an interval is empty iff every byte of it is cached.
pub proof fn lemma_missing_empty(
    m: StoreModel,
    inode: u64,
    start: u64,
    end: u64,
    out: Seq<(u64, u64)>,
)
    requires
        start <= end,
        m.is_missing(inode, start, end, out),
    ensures
        out.len() > 0 <==> needs_fetch(m, inode, (start, end)),
{
    if out.len() > 0 {
        let x = out[0].0 as int;
        assert(covers(out[0], x));
        assert(covered_by(out, x));
        assert(!m.cached(inode, x));
    }
    if needs_fetch(m, inode, (start, end)) {
        let x = choose|x: int| start <= x <= end && !#[trigger] m.cached(inode, x);
        assert(covered_by(out, x));
    }
}

/// The bytes of `data` from `offset` on, at most `size` of them.
pub fn read_slice(data: &Vec<u8>, offset: u64, size: u32) -> (out: Vec<u8>)
    ensures
        out@ == slice_spec(data@, offset, size),
{
    let mut out: Vec<u8> = Vec::new();
    let len = data.len();
    if offset >= len as u64 {
        return out;
    }
    let start = offset as usize;
    let end: usize = if (size as u64) >= (len - start) as u64 {
        len
    } else {
        start + size as usize
    };
    let mut i: usize = start;
    while i < end
        invariant
            start <= i <= end <= len,
            len == data.len(),
            out@ == data@.subrange(start as int, i as int),
        decreases end - i,
    {
        out.push(data[i]);
        assert(out@ =~= data@.subrange(start as int, i + 1));
        i += 1;
    }
    out
}

impl GDriveFS {
    /// The ranges to fetch before `size` bytes at `offset` of `inode` can be
    /// read from the local copy, for a file of `file_size` bytes whose local
    /// copy has `blob_len` bytes, or none yet. Each range is then to be
    /// fetched, written at its offset and recorded as a cached chunk.
    pub fn ensure_range_cached(
        &self,
        db: &MetadataRepository,
        inode: u64,
        offset: u64,
        size: u32,
        file_size: u64,
        blob_len: Option<u64>,
    ) -> (fetch: Vec<(u64, u64)>)
        requires
            db.wf(),
        ensures
            is_fetch_plan(db@, inode, offset, size, file_size, blob_len, fetch@),
    {
        if size == 0 || offset >= file_size {
            return Vec::new();
        }
        match blob_len {
            Some(len) => {
                if len == file_size {
                    return Vec::new();
                }
            },
            None => {},
        }
        let last = file_size - 1;
        let end = if (size as u64 - 1) >= last - offset {
            last
        } else {
            offset + (size as u64 - 1)
        };
        db.get_missing_ranges(inode, offset, end)
    }

    /// The pieces in which the whole of a file of `file_size` bytes is
    /// fetched, in batches of at most four pieces that are fetched at a
    /// time: one piece below 5 MiB, else pieces of 2 MiB.
    pub fn prefetch_entire_file(file_size: u64) -> (batches: Vec<Vec<(u64, u64)>>)
        ensures
            batches@.len() * MAX_CONCURRENT >= chunk_count(file_size),
            forall|b: int, k: int|
                0 <= b < batches@.len() && 0 <= k < (#[trigger] batches@[b])@.len() ==> 0 <= 4 * b
                    + k < chunk_count(file_size) && #[trigger] batches@[b]@[k]
                    == entire_file_chunks(file_size)[4 * b + k],
            forall|b: int|
                0 <= b < batches@.len() ==> (#[trigger] batches@[b])@.len() == (if 4 * b + 4
                    <= chunk_count(file_size) {
                    4
                } else {
                    chunk_count(file_size) - 4 * b
                }) && batches@[b]@.len() > 0,
    {
        let mut batches: Vec<Vec<(u64, u64)>> = Vec::new();
        if file_size == 0 {
            return batches;
        }
        if file_size < SINGLE_DOWNLOAD_THRESHOLD {
            let mut only: Vec<(u64, u64)> = Vec::new();
            only.push((0, file_size - 1));
            batches.push(only);
            return batches;
        }
        let last = file_size - 1;
        let ghost count = chunk_count(file_size);
        let mut batch: Vec<(u64, u64)> = Vec::new();
        let mut start: u64 = 0;
        let mut done = false;
        let ghost mut i: int = 0;
        while !done
            invariant
                file_size >= SINGLE_DOWNLOAD_THRESHOLD,
                last == file_size - 1,
                count == chunk_count(file_size),
                !done ==> start == i * CHUNK_SIZE && start <= last && 0 <= i < count,
                done ==> i == count,
                0 <= i <= count,
                batch@.len() < 4,
                i == 4 * batches@.len() + batch@.len(),
                forall|k: int|
                    0 <= k < batch@.len() ==> #[trigger] batch@[k] == chunk_at(
                        4 * batches@.len() + k,
                        file_size,
                    ),
                forall|b: int, k: int|
                    0 <= b < batches@.len() && 0 <= k < (#[trigger] batches@[b])@.len()
                        ==> #[trigger] batches@[b]@[k] == chunk_at(4 * b + k, file_size),
                forall|b: int| 0 <= b < batches@.len() ==> (#[trigger] batches@[b])@.len() == 4,
            decreases count - i, if done { 0int } else { 1int },
        {
            let end = if CHUNK_SIZE - 1 >= last - start {
                last
            } else {
                start + (CHUNK_SIZE - 1)
            };
            proof {
                assert(i * CHUNK_SIZE + CHUNK_SIZE - 1 == start + CHUNK_SIZE - 1);
                assert((start, end) == chunk_at(i, file_size));
            }
            batch.push((start, end));
            if batch.len() == MAX_CONCURRENT {
                let ghost full = batch@;
                batches.push(batch);
                batch = Vec::new();
                proof {
                    assert(batches@[batches@.len() - 1]@ == full);
                }
            }
            proof {
                i = i + 1;
            }
            if end == last {
                done = true;
                proof {
                    lemma_chunk_count(file_size, i - 1);
                }
            } else {
                start = end + 1;
                proof {
                    lemma_chunk_count(file_size, i - 1);
                }
            }
        }
        if batch.len() > 0 {
            batches.push(batch);
        }
        batches
    }

    /// The head and the tail of a file of `file_size` bytes that are to be
    /// fetched ahead of time: each one where some byte of it is not cached.
    pub fn prefetch_headers_and_tail(&self, db: &MetadataRepository, inode: u64, file_size: u64) -> (fetch:
        Vec<(u64, u64)>)
        requires
            db.wf(),
        ensures
            fetch@ == head_and_tail_spec(db@, inode, file_size),
    {
        let mut fetch: Vec<(u64, u64)> = Vec::new();
        if file_size == 0 {
            return fetch;
        }
        let head_end = if file_size < HEADER_SIZE {
            file_size - 1
        } else {
            HEADER_SIZE - 1
        };
        let missing_head = db.get_missing_ranges(inode, 0, head_end);
        proof {
            lemma_missing_empty(db@, inode, 0, head_end, missing_head@);
        }
        if missing_head.len() > 0 {
            fetch.push((0, head_end));
        }
        if file_size > TAIL_SIZE {
            let tail_start = file_size - TAIL_SIZE;
            let tail_end = file_size - 1;
            let missing_tail = db.get_missing_ranges(inode, tail_start, tail_end);
            proof {
                lemma_missing_empty(db@, inode, tail_start, tail_end, missing_tail@);
            }
            if missing_tail.len() > 0 {
                fetch.push((tail_start, tail_end));
            }
        }
        assert(fetch@ =~= head_and_tail_spec(db@, inode, file_size));
        fetch
    }

    /// Opens the file `inode`, which must exist, and says what is to be
    /// fetched ahead of time. `blob_len` is the length of the local copy, if
    /// there is one.
    pub fn open(&self, db: &MetadataRepository, inode: u64, blob_len: Option<u64>, now: i64) -> (r:
        Result<(ReplyOpen, Prefetch), FsError>)
        requires
            db.wf(),
        ensures
            db@.attrs_or_root(inode, now) is None ==> r == Err::<(ReplyOpen, Prefetch), FsError>(
                FsError::NotFound,
            ),
            db@.attrs_or_root(inode, now) is Some ==> r is Ok && r->Ok_0.0 == (ReplyOpen {
                fh: 0,
                flags: 0,
            }) && r->Ok_0.1.kind == prefetch_kind_spec(
                db@.attrs_or_root(inode, now)->0,
                db@.inodes.contains_key(inode) && db@.inodes[inode].remote_id.len() > 0,
                blob_len,
            ) && (r->Ok_0.1.kind != PrefetchKind::Nothing ==> r->Ok_0.1.remote_id@
                == db@.inodes[inode].remote_id && r->Ok_0.1.file_size == non_negative(
                db@.attrs_or_root(inode, now)->0.size,
            )) && (r->Ok_0.1.kind == PrefetchKind::Nothing ==> r->Ok_0.1.remote_id@.len() == 0
                && r->Ok_0.1.file_size == 0),
    {
        let attrs = match db.get_attrs(inode, now) {
            Ok(a) => a,
            Err(_) => {
                return Err(FsError::NotFound);
            },
        };
        let reply = ReplyOpen { fh: 0, flags: 0 };
        let nothing = Prefetch {
            kind: PrefetchKind::Nothing,
            remote_id: String::new(),
            file_size: 0,
        };
        let file_size: u64 = if attrs.size < 0 {
            0
        } else {
            attrs.size as u64
        };
        let id = match db.get_gdrive_id(inode) {
            Some(id) => id,
            None => String::new(),
        };
        let has_id = id.as_str().unicode_len() > 0;
        let multimedia = match &attrs.mime_type {
            Some(mime) => Self::is_multimedia_file(mime.as_str()),
            None => false,
        };
        let complete = match blob_len {
            Some(len) => len == file_size,
            None => false,
        };
        if !multimedia || attrs.is_dir || file_size == 0 || !has_id || complete {
            return Ok((reply, nothing));
        }
        let kind = if file_size < SMALL_FILE_THRESHOLD {
            PrefetchKind::EntireFile
        } else {
            PrefetchKind::HeadAndTail
        };
        Ok((reply, Prefetch { kind, remote_id: id, file_size }))
    }

    /// Says how `size` bytes at `offset` of `inode` are served. A native
    /// cloud document is served with the bytes of its shortcut, an empty
    /// file with nothing, and any other file from its local copy, once what
    /// is missing of the range has been fetched. `blob_len` is the length of
    /// the local copy, if there is one.
    pub fn read(
        &self,
        db: &MetadataRepository,
        inode: u64,
        offset: u64,
        size: u32,
        blob_len: Option<u64>,
    ) -> (r: Result<ReadPlan, FsError>)
        requires
            db.wf(),
        ensures
            !(db@.inodes.contains_key(inode) && db@.attrs.contains_key(inode)) ==> r == Err::<
                ReadPlan,
                FsError,
            >(FsError::NotFound),
            db@.inodes.contains_key(inode) && db@.attrs.contains_key(inode) ==> r is Ok && ({
                let a = db@.attrs[inode];
                let plan = r->Ok_0;
                if a.mime_type is Some && is_workspace_mime(a.mime_type->0) {
                    plan is Inline && plan->Inline_0@ == slice_spec(
                        encode_utf8(
                            html_spec(
                                db@.inodes[inode].remote_id,
                                shortcut_name(db@, inode),
                                a.mime_type->0,
                            ),
                        ),
                        offset,
                        size,
                    )
                } else if a.size > 0 {
                    &&& plan is FromCache
                    &&& plan->remote_id@ == db@.inodes[inode].remote_id
                    &&& plan->offset == offset
                    &&& plan->length == read_len_spec(offset, size, a.size as u64)
                    &&& is_fetch_plan(db@, inode, offset, size, a.size as u64, blob_len, plan->fetch@)
                } else {
                    plan is Empty
                }
            }),
    {
        let id = match db.get_gdrive_id(inode) {
            Some(id) => id,
            None => {
                return Err(FsError::NotFound);
            },
        };
        if !db.has_attrs(inode) {
            return Err(FsError::NotFound);
        }
        let attrs = match db.get_attrs(inode, 0) {
            Ok(a) => a,
            Err(_) => {
                return Err(FsError::NotFound);
            },
        };
        match &attrs.mime_type {
            Some(mime) => {
                if is_workspace_file(mime.as_str()) {
                    let name = Self::get_file_name(db, inode);
                    let page = generate_html(id.as_str(), name.as_str(), mime.as_str());
                    let bytes = page.as_str().as_bytes_vec();
                    return Ok(ReadPlan::Inline(read_slice(&bytes, offset, size)));
                }
            },
            None => {},
        }
        if attrs.size > 0 {
            let file_size = attrs.size as u64;
            let fetch = self.ensure_range_cached(db, inode, offset, size, file_size, blob_len);
            let length: u32 = if offset >= file_size {
                0
            } else if file_size - offset < size as u64 {
                (file_size - offset) as u32
            } else {
                size
            };
            return Ok(ReadPlan::FromCache { remote_id: id, fetch, offset, length });
        }
        Ok(ReadPlan::Empty)
    }
}

/// The store after the ranges that were fetched are recorded, and whether
/// every range was fetched and recorded.
pub open spec fn record_spec(m: StoreModel, inode: u64, results: Seq<((u64, u64), bool)>) -> (
    StoreModel,
    bool,
)
    decreases results.len(),
{
    if results.len() == 0 {
        (m, true)
    } else {
        let (before, ok) = record_spec(m, inode, results.drop_last());
        let (range, fetched) = results.last();
        if fetched {
            let (after, done) = before.try_add_chunk(inode, range.0, range.1);
            (after, ok && done is Ok)
        } else {
            (before, false)
        }
    }
}

impl GDriveFS {
    /// Records how the fetches of a read went: every range that was fetched
    /// and written to the local copy becomes a cached chunk. The read can go
    /// on only where every range was fetched and recorded; one failure fails
    /// the read.
    pub fn record_fetched(
        &self,
        db: &mut MetadataRepository,
        inode: u64,
        results: &Vec<((u64, u64), bool)>,
    ) -> (r: Result<(), FsError>)
        requires
            old(db).wf(),
        ensures
            final(db).wf(),
            final(db)@ == record_spec(old(db)@, inode, results@).0,
            record_spec(old(db)@, inode, results@).1 ==> r is Ok,
            !record_spec(old(db)@, inode, results@).1 ==> r == Err::<(), FsError>(FsError::Io),
    {
        let mut ok = true;
        let mut i: usize = 0;
        proof {
            assert(results@.subrange(0, 0) =~= Seq::<((u64, u64), bool)>::empty());
        }
        while i < results.len()
            invariant
                db.wf(),
                i <= results.len(),
                (db@, ok) == record_spec(old(db)@, inode, results@.subrange(0, i as int)),
            decreases results.len() - i,
        {
            proof {
                assert(results@.subrange(0, i + 1).drop_last() =~= results@.subrange(0, i as int));
                assert(results@.subrange(0, i + 1).last() == results@[i as int]);
            }
            let (range, fetched) = results[i];
            if fetched {
                match db.add_cached_chunk(inode, range.0, range.1) {
                    Ok(_) => {},
                    Err(_) => {
                        ok = false;
                    },
                }
            } else {
                ok = false;
            }
            i += 1;
        }
        proof {
            assert(results@.subrange(0, i as int) =~= results@);
        }
        if ok {
            Ok(())
        } else {
            Err(FsError::Io)
        }
    }
}

/// Piece `i` of a file ends at the end of the file iff it is the last one.
proof fn lemma_chunk_count(file_size: u64, i: int)
    requires
        file_size >= SINGLE_DOWNLOAD_THRESHOLD,
        0 <= i,
        i * CHUNK_SIZE <= file_size - 1,
    ensures
        i < chunk_count(file_size),
        chunk_at(i, file_size).1 == file_size - 1 <==> i + 1 == chunk_count(file_size),
        chunk_at(i, file_size).1 != file_size - 1 ==> (i + 1) * CHUNK_SIZE == chunk_at(
            i,
            file_size,
        ).1 + 1 && (i + 1) * CHUNK_SIZE <= file_size - 1,
{
    let c = CHUNK_SIZE as int;
    let n = (file_size + c - 1) / c;
    assert(n * c <= file_size + c - 1 && file_size + c - 1 < n * c + c) by (nonlinear_arith)
        requires
            n == (file_size + c - 1) / c,
            c == 2097152,
    ;
    assert((i + 1) * c == i * c + c) by (nonlinear_arith);
    if i >= n {
        assert(i * c >= n * c) by (nonlinear_arith)
            requires
                i >= n,
                c == 2097152,
        ;
    }
    if i + 1 < n {
        assert((i + 1) * c <= (n - 1) * c) by (nonlinear_arith)
            requires
                i + 1 <= n - 1,
                c == 2097152,
        ;
        assert((n - 1) * c == n * c - c) by (nonlinear_arith);
    }
}

} // verus!
