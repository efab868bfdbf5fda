//! Element kinds and buffer metadata, and the validation rules the cache
//! operations impose on them.
//!
//! The cache copy path accepts only contiguous device-resident buffers of
//! a 16-bit floating element kind, all on one device and all of one
//! element count. The checks here decide those rules over plain metadata;
//! the surrounding engine queries its tensor runtime for the metadata and
//! must not call the copy path when a check fails.

use vstd::prelude::*;

verus! {

/// Element kind of a buffer, as tagged by the tensor runtime.
#[derive(Clone, Copy, PartialEq, Eq, Structural)]
pub enum ElemKind {
    /// Unsigned 8-bit integer.
    Uint8,
    /// Signed 8-bit integer.
    Int8,
    /// Signed 16-bit integer.
    Int16,
    /// Signed 32-bit integer.
    Int,
    /// Signed 64-bit integer.
    Int64,
    /// 16-bit IEEE floating point.
    Half,
    /// 32-bit IEEE floating point.
    Float,
    /// 64-bit IEEE floating point.
    Double,
    /// 16-bit brain floating point.
    BFloat16,
    /// Boolean.
    Bool,
}

/// Identity of the device a buffer lives on.
#[derive(Clone, Copy, PartialEq, Eq, Structural)]
pub struct DeviceId {
    /// The buffer lives in device memory (not host memory).
    pub cuda: bool,
    /// Ordinal of the device.
    pub ordinal: u32,
}

/// Metadata of one flat buffer: element kind, device, contiguity, element
/// count.
#[derive(Clone, Copy, PartialEq, Eq, Structural)]
pub struct TensorMeta {
    /// Element kind.
    pub kind: ElemKind,
    /// Device the buffer lives on.
    pub device: DeviceId,
    /// The buffer is contiguous in memory.
    pub contiguous: bool,
    /// Number of elements.
    pub numel: usize,
}

/// The element kind is one of the 16-bit floating families.
pub open spec fn is_half_kind(k: ElemKind) -> bool {
    k == ElemKind::BFloat16 || k == ElemKind::Half
}

/// Whether the element kind is a 16-bit floating kind, decided executably.
pub fn is_bf16_or_f16(k: ElemKind) -> (r: bool)
    ensures
        r == is_half_kind(k),
{
    match k {
        ElemKind::BFloat16 => true,
        ElemKind::Half => true,
        _ => false,
    }
}

/// A buffer is fit for the block-copy path: 16-bit floating kind,
/// device-resident, contiguous.
pub open spec fn cont_half_on_device(m: TensorMeta) -> bool {
    is_half_kind(m.kind) && m.device.cuda && m.contiguous
}

/// Whether a buffer is fit for the block-copy path, decided executably.
pub fn check_cont_bf16_or_f16(m: &TensorMeta) -> (r: bool)
    ensures
        r == cont_half_on_device(*m),
{
    is_bf16_or_f16(m.kind) && m.device.cuda && m.contiguous
}

/// The metadata of all layers' key and value cache buffers admits a block
/// copy: the two lists pair up, and every buffer is fit for the copy path,
/// lives on the first key buffer's device, and has the first key buffer's
/// element count.
pub open spec fn copy_blocks_meta_ok(key: Seq<TensorMeta>, value: Seq<TensorMeta>) -> bool {
    &&& key.len() == value.len()
    &&& key.len() > 0 ==> {
        &&& forall|l: int|
            0 <= l < key.len()
                ==> (#[trigger] key[l]).device == key[0].device
                    && key[l].numel == key[0].numel && cont_half_on_device(key[l])
        &&& forall|l: int|
            0 <= l < value.len()
                ==> (#[trigger] value[l]).device == key[0].device
                    && value[l].numel == key[0].numel && cont_half_on_device(value[l])
    }
}

/// Whether the per-layer cache metadata admits a block copy, decided
/// executably. An empty layer list is admitted; the copy is then a no-op.
#[verifier::loop_isolation(false)]
pub fn check_copy_blocks_meta(key: &Vec<TensorMeta>, value: &Vec<TensorMeta>) -> (r: bool)
    ensures
        r == copy_blocks_meta_ok(key@, value@),
{
    if key.len() != value.len() {
        return false;
    }
    if key.len() == 0 {
        return true;
    }
    let dev = key[0].device;
    let numel = key[0].numel;
    let mut l: usize = 0;
    while l < key.len()
        invariant
            l <= key@.len(),
            key@.len() == value@.len(),
            0 < key@.len(),
            dev == key@[0].device,
            numel == key@[0].numel,
            forall|l2: int|
                0 <= l2 < l
                    ==> (#[trigger] key@[l2]).device == key@[0].device
                        && key@[l2].numel == key@[0].numel && cont_half_on_device(key@[l2]),
            forall|l2: int|
                0 <= l2 < l
                    ==> (#[trigger] value@[l2]).device == key@[0].device
                        && value@[l2].numel == key@[0].numel
                        && cont_half_on_device(value@[l2]),
        decreases key@.len() - l,
    {
        let km = &key[l];
        let vm = &value[l];
        if !(check_cont_bf16_or_f16(km) && km.device == dev && km.numel == numel) {
            return false;
        }
        if !(check_cont_bf16_or_f16(vm) && vm.device == dev && vm.numel == numel) {
            return false;
        }
        l = l + 1;
    }
    true
}

} // verus!
