//! The local copy of a file as a sequence of bytes: what a write at an
//! offset leaves, and what a read at an offset gives.
use vstd::prelude::*;
use vstd::utf8::encode_utf8;
use crate::db::model::StoreModel;
use crate::fuse::cache::{read_slice, slice_spec};
use crate::fuse::filesystem::{getattr_record, shortcut_id, shortcut_name, utf8_len};
use crate::fuse::shortcuts::{html_spec, is_workspace_mime};

verus! {

/// The bytes of a file after `data` was written at `offset`: the bytes
/// before and behind the written range stay, and a gap between the old end
/// and the offset is filled with zeros.
pub open spec fn write_at_spec(blob: Seq<u8>, offset: int, data: Seq<u8>) -> Seq<u8> {
    Seq::new(
        if blob.len() >= offset + data.len() {
            blob.len()
        } else {
            (offset + data.len()) as nat
        },
        |i: int|
            if offset <= i < offset + data.len() {
                data[i - offset]
            } else if i < blob.len() {
                blob[i]
            } else {
                0u8
            },
    )
}

/// The bytes of a file cut or filled with zeros to `size` bytes.
pub open spec fn resize_spec(blob: Seq<u8>, size: int) -> Seq<u8> {
    Seq::new(
        size as nat,
        |i: int|
            if i < blob.len() {
                blob[i]
            } else {
                0u8
            },
    )
}

/// Writes `data` into `blob` at `offset`. Nothing is written, and `false`
/// returned, where the end of the written range cannot be addressed.
pub fn write_at(blob: &mut Vec<u8>, offset: usize, data: &Vec<u8>) -> (done: bool)
    ensures
        done == (offset + data@.len() <= usize::MAX),
        done ==> final(blob)@ == write_at_spec(old(blob)@, offset as int, data@),
        !done ==> final(blob)@ == old(blob)@,
{
    if data.len() > usize::MAX - offset {
        return false;
    }
    let end = offset + data.len();
    while blob.len() < offset
        invariant
            blob@.len() >= old(blob)@.len(),
            blob@.len() <= offset || blob@.len() == old(blob)@.len(),
            forall|i: int| 0 <= i < old(blob)@.len() ==> blob@[i] == old(blob)@[i],
            forall|i: int| old(blob)@.len() <= i < blob@.len() ==> blob@[i] == 0u8,
        decreases offset - blob.len(),
    {
        blob.push(0);
    }
    let ghost filled = blob@;
    let mut i: usize = 0;
    while i < data.len()
        invariant
            i <= data.len(),
            end == offset + data.len(),
            filled.len() >= offset,
            filled.len() == (if old(blob)@.len() >= offset {
                old(blob)@.len()
            } else {
                offset as nat
            }),
            forall|k: int| 0 <= k < old(blob)@.len() ==> filled[k] == old(blob)@[k],
            forall|k: int| old(blob)@.len() <= k < filled.len() ==> filled[k] == 0u8,
            blob@.len() == (if filled.len() >= offset + i {
                filled.len()
            } else {
                (offset + i) as nat
            }),
            forall|k: int| 0 <= k < offset ==> blob@[k] == filled[k],
            forall|k: int| offset <= k < offset + i ==> blob@[k] == data@[k - offset],
            forall|k: int| offset + i <= k < blob@.len() ==> blob@[k] == filled[k],
        decreases data.len() - i,
    {
        if offset + i < blob.len() {
            blob[offset + i] = data[i];
        } else {
            blob.push(data[i]);
        }
        i += 1;
    }
    proof {
        let want = write_at_spec(old(blob)@, offset as int, data@);
        assert(blob@.len() == want.len());
        assert forall|k: int| 0 <= k < want.len() implies blob@[k] == want[k] by {
            if k < offset {
                assert(blob@[k] == filled[k]);
            } else if k < offset + data@.len() {
                assert(blob@[k] == data@[k - offset]);
            } else {
                assert(blob@[k] == filled[k]);
            }
        }
        assert(blob@ =~= want);
    }
    true
}

/// Cuts `blob` to `size` bytes, or fills it with zeros up to `size` bytes.
pub fn resize(blob: &mut Vec<u8>, size: usize)
    ensures
        final(blob)@ == resize_spec(old(blob)@, size as int),
{
    if size < blob.len() {
        blob.truncate(size);
    }
    while blob.len() < size
        invariant
            blob@.len() <= size || blob@.len() == old(blob)@.len(),
            blob@.len() >= size ==> blob@.len() == size,
            blob@.len() < size ==> blob@.len() >= old(blob)@.len(),
            forall|i: int|
                0 <= i < blob@.len() ==> blob@[i] == (if i < old(blob)@.len() {
                    old(blob)@[i]
                } else {
                    0u8
                }),
        decreases size - blob.len(),
    {
        blob.push(0);
    }
    proof {
        assert(blob@ =~= resize_spec(old(blob)@, size as int));
    }
}

/// A read of what was just written gives what was written.
pub proof fn law_read_after_write(blob: Seq<u8>, offset: u64, data: Seq<u8>)
    requires
        data.len() <= u32::MAX,
        offset + data.len() <= u64::MAX,
    ensures
        slice_spec(write_at_spec(blob, offset as int, data), offset, data.len() as u32) == data,
{
    let after = write_at_spec(blob, offset as int, data);
    let got = slice_spec(after, offset, data.len() as u32);
    if data.len() > 0 {
        assert(got =~= data);
    } else {
        assert(got =~= data);
    }
}

/// A read that reaches beyond the end of the file gives only the bytes up to
/// the end; a read behind the end, and of an empty file, gives nothing.
pub proof fn law_read_stops_at_end(blob: Seq<u8>, offset: u64, size: u32)
    ensures
        slice_spec(blob, offset, size).len() == (if offset >= blob.len() {
            0
        } else if blob.len() - offset < size {
            blob.len() - offset
        } else {
            size as int
        }),
        forall|i: int|
            0 <= i < slice_spec(blob, offset, size).len() ==> slice_spec(blob, offset, size)[i]
                == blob[offset + i],
{
}

/// The shortcut of a native cloud document is read as a whole by a read of
/// the first MiB, and `getattr` reports its length, as long as the shortcut
/// has no more than a MiB.
pub proof fn law_shortcut_size_is_read_length(m: StoreModel, inode: u64, uid: u32, gid: u32)
    requires
        m.inodes.contains_key(inode),
        m.attrs.contains_key(inode),
        m.attrs[inode].mime_type is Some,
        is_workspace_mime(m.attrs[inode].mime_type->0),
        encode_utf8(
            html_spec(m.inodes[inode].remote_id, shortcut_name(m, inode), m.attrs[inode].mime_type->0),
        ).len() <= 1048576,
    ensures
        ({
            let page = encode_utf8(
                html_spec(
                    m.inodes[inode].remote_id,
                    shortcut_name(m, inode),
                    m.attrs[inode].mime_type->0,
                ),
            );
            &&& slice_spec(page, 0, 1048576) == page
            &&& getattr_record(m, inode, m.attrs[inode], uid, gid).size == page.len()
        }),
{
    let page = encode_utf8(
        html_spec(m.inodes[inode].remote_id, shortcut_name(m, inode), m.attrs[inode].mime_type->0),
    );
    assert(slice_spec(page, 0, 1048576) =~= page);
}

} // verus!
