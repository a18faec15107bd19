//! Choice of capture buffers: which DMA-buf modifiers to allocate with, and
//! the layout of shared-memory buffers.

use vstd::prelude::*;

verus! {

/// The format modifier of a linear (untiled) layout, as the kernel's DRM
/// format-modifier ABI fixes it.
pub const DRM_FORMAT_MOD_LINEAR: u64 = 0;

/// The format modifier that means "no explicit modifier", as the kernel's
/// DRM format-modifier ABI fixes it.
pub const DRM_FORMAT_MOD_INVALID: u64 = 0x00ff_ffff_ffff_ffff;

/// The `wl_shm` code of the 32-bit ABGR format ('AB24'), as the Wayland
/// protocol fixes it.
pub const WL_SHM_FORMAT_ABGR8888: u32 = 0x3432_4241;

/// An entry of the compositor's format table.
#[derive(Clone, Copy, Debug, PartialEq, Eq, Structural)]
pub struct FormatEntry {
    pub format: u32,
    pub modifier: u64,
}

/// DMA-buf feedback: the format table, and the tranches of preferred
/// formats as indices into the table.
#[derive(Debug)]
pub struct DmabufFeedback {
    pub format_table: Vec<FormatEntry>,
    pub tranches: Vec<Vec<u16>>,
}

/// The formats a capture session accepts.
#[derive(Debug)]
pub struct Formats {
    pub buffer_size: (u32, u32),
    pub shm_formats: Vec<u32>,
    pub dmabuf_formats: Vec<(u32, Vec<u64>)>,
}

/// How to allocate a GBM buffer object.
#[derive(Debug)]
pub enum GbmAllocation {
    /// With an explicit list of modifiers.
    WithModifiers(Vec<u64>),
    /// Without modifiers, letting the driver choose the layout.
    Implicit,
}

/// The format-table entries named by the tranches, in order; indices past
/// the table are skipped.
pub open spec fn tranche_entries(table: Seq<FormatEntry>, tranches: Seq<Seq<u16>>) -> Seq<FormatEntry>
    decreases tranches.len(),
{
    if tranches.len() == 0 {
        Seq::empty()
    } else {
        tranche_entries(table, tranches.drop_last()) + entries_of(table, tranches.last())
    }
}

/// The format-table entries named by `idxs`, in order; indices past the
/// table are skipped.
pub open spec fn entries_of(table: Seq<FormatEntry>, idxs: Seq<u16>) -> Seq<FormatEntry>
    decreases idxs.len(),
{
    if idxs.len() == 0 {
        Seq::empty()
    } else {
        let rest = entries_of(table, idxs.drop_last());
        let i = idxs.last() as int;
        if i < table.len() {
            rest.push(table[i])
        } else {
            rest
        }
    }
}

/// The modifiers to allocate with: the modifiers of the entries, in order,
/// whose format is `format`, that are linear when `needs_linear`, and that
/// the capture session accepts.
pub open spec fn selected_modifiers(entries: Seq<FormatEntry>, format: u32, needs_linear: bool, accepted: Seq<u64>) -> Seq<u64>
    decreases entries.len(),
{
    if entries.len() == 0 {
        Seq::empty()
    } else {
        let rest = selected_modifiers(entries.drop_last(), format, needs_linear, accepted);
        let e = entries.last();
        if e.format == format && (!needs_linear || e.modifier == DRM_FORMAT_MOD_LINEAR)
            && accepted.contains(e.modifier) {
            rest.push(e.modifier)
        } else {
            rest
        }
    }
}

fn contains_u64(v: &Vec<u64>, x: u64) -> (r: bool)
    ensures
        r == v@.contains(x),
{
    let mut i: usize = 0;
    while i < v.len()
        invariant
            i <= v@.len(),
            forall|j: int| 0 <= j < i ==> v@[j] != x,
        decreases v@.len() - i,
    {
        if v[i] == x {
            assert(v@[i as int] == x);
            return true;
        }
        i = i + 1;
    }
    false
}

/// The modifiers to allocate a buffer of `format` with, from the
/// compositor's feedback and the modifiers the capture session accepts.
pub fn select_modifiers(feedback: &DmabufFeedback, format: u32, needs_linear: bool, accepted: &Vec<u64>) -> (r: Vec<u64>)
    ensures
        r@ == selected_modifiers(
            tranche_entries(feedback.format_table@, feedback.tranches@.map_values(|t: Vec<u16>| t@)),
            format,
            needs_linear,
            accepted@,
        ),
{
    let ghost table = feedback.format_table@;
    let ghost tr = feedback.tranches@.map_values(|t: Vec<u16>| t@);
    let mut entries: Vec<FormatEntry> = Vec::new();
    let mut t: usize = 0;
    proof {
        assert(tr.take(0) =~= Seq::<Seq<u16>>::empty());
    }
    while t < feedback.tranches.len()
        invariant
            t <= feedback.tranches@.len(),
            tr == feedback.tranches@.map_values(|t: Vec<u16>| t@),
            table == feedback.format_table@,
            entries@ == tranche_entries(table, tr.take(t as int)),
        decreases feedback.tranches@.len() - t,
    {
        let idxs = &feedback.tranches[t];
        let ghost base = entries@;
        let mut k: usize = 0;
        proof {
            assert(idxs@.take(0) =~= Seq::<u16>::empty());
            assert(base + entries_of(table, idxs@.take(0)) =~= base);
        }
        while k < idxs.len()
            invariant
                k <= idxs@.len(),
                table == feedback.format_table@,
                entries@ == base + entries_of(table, idxs@.take(k as int)),
            decreases idxs@.len() - k,
        {
            let i = idxs[k] as usize;
            proof {
                assert(idxs@.take(k + 1).drop_last() =~= idxs@.take(k as int));
                assert(idxs@.take(k + 1).last() == idxs@[k as int]);
            }
            if i < feedback.format_table.len() {
                entries.push(feedback.format_table[i]);
                proof {
                    assert(base + entries_of(table, idxs@.take(k as int)).push(table[i as int]) =~= (base
                        + entries_of(table, idxs@.take(k as int))).push(table[i as int]));
                }
            }
            k = k + 1;
        }
        proof {
            assert(idxs@.take(idxs@.len() as int) =~= idxs@);
            assert(tr.take(t + 1).drop_last() =~= tr.take(t as int));
            assert(tr.take(t + 1).last() == idxs@);
        }
        t = t + 1;
    }
    proof {
        assert(tr.take(tr.len() as int) =~= tr);
    }
    let mut r: Vec<u64> = Vec::new();
    let mut e: usize = 0;
    proof {
        assert(entries@.take(0) =~= Seq::<FormatEntry>::empty());
    }
    while e < entries.len()
        invariant
            e <= entries@.len(),
            r@ == selected_modifiers(entries@.take(e as int), format, needs_linear, accepted@),
        decreases entries@.len() - e,
    {
        let entry = entries[e];
        proof {
            assert(entries@.take(e + 1).drop_last() =~= entries@.take(e as int));
            assert(entries@.take(e + 1).last() == entry);
        }
        if entry.format == format && (!needs_linear || entry.modifier == DRM_FORMAT_MOD_LINEAR)
            && contains_u64(accepted, entry.modifier) {
            r.push(entry.modifier);
        }
        e = e + 1;
    }
    proof {
        assert(entries@.take(entries@.len() as int) =~= entries@);
    }
    r
}

/// How to allocate with the selected modifiers: nothing when there are
/// none, without modifiers when all of them are the "no explicit modifier"
/// value, and with the modifiers otherwise.
pub fn gbm_allocation(modifiers: Vec<u64>) -> (r: Option<GbmAllocation>)
    ensures
        modifiers@.len() == 0 ==> r is None,
        modifiers@.len() > 0 && (forall|i: int| 0 <= i < modifiers@.len() ==> modifiers@[i] == DRM_FORMAT_MOD_INVALID)
            ==> r matches Some(GbmAllocation::Implicit),
        modifiers@.len() > 0 && (exists|i: int| 0 <= i < modifiers@.len() && modifiers@[i] != DRM_FORMAT_MOD_INVALID)
            ==> (r matches Some(GbmAllocation::WithModifiers(m)) && m@ == modifiers@),
{
    if modifiers.len() == 0 {
        return None;
    }
    let mut all_invalid = true;
    let mut i: usize = 0;
    while i < modifiers.len()
        invariant
            i <= modifiers@.len(),
            all_invalid == forall|j: int| 0 <= j < i ==> modifiers@[j] == DRM_FORMAT_MOD_INVALID,
        decreases modifiers@.len() - i,
    {
        if modifiers[i] != DRM_FORMAT_MOD_INVALID {
            all_invalid = false;
        }
        i = i + 1;
    }
    if !all_invalid {
        Some(GbmAllocation::WithModifiers(modifiers))
    } else {
        Some(GbmAllocation::Implicit)
    }
}

/// The modifiers the capture session accepts for `format` as a DMA-buf, if
/// it accepts the format at all (the first entry for the format counts).
pub fn dmabuf_modifiers_for(formats: &Formats, format: u32) -> (r: Option<&Vec<u64>>)
    ensures
        r is None ==> forall|i: int| 0 <= i < formats.dmabuf_formats@.len() ==> formats.dmabuf_formats@[i].0 != format,
        r matches Some(m) ==> exists|i: int| 0 <= i < formats.dmabuf_formats@.len()
            && formats.dmabuf_formats@[i].0 == format
            && *m == formats.dmabuf_formats@[i].1
            && forall|j: int| 0 <= j < i ==> formats.dmabuf_formats@[j].0 != format,
{
    let mut i: usize = 0;
    while i < formats.dmabuf_formats.len()
        invariant
            i <= formats.dmabuf_formats@.len(),
            forall|j: int| 0 <= j < i ==> formats.dmabuf_formats@[j].0 != format,
        decreases formats.dmabuf_formats@.len() - i,
    {
        if formats.dmabuf_formats[i].0 == format {
            return Some(&formats.dmabuf_formats[i].1);
        }
        i = i + 1;
    }
    None
}

/// Whether the capture session accepts `format` as shared memory.
pub fn shm_supports(formats: &Formats, format: u32) -> (r: bool)
    ensures
        r == formats.shm_formats@.contains(format),
{
    let mut i: usize = 0;
    while i < formats.shm_formats.len()
        invariant
            i <= formats.shm_formats@.len(),
            forall|j: int| 0 <= j < i ==> formats.shm_formats@[j] != format,
        decreases formats.shm_formats@.len() - i,
    {
        if formats.shm_formats[i] == format {
            assert(formats.shm_formats@[i as int] == format);
            return true;
        }
        i = i + 1;
    }
    false
}

/// Layout of a shared-memory buffer of 4 bytes per pixel.
#[derive(Clone, Copy, Debug, PartialEq, Eq, Structural)]
pub struct ShmLayout {
    /// Length of the backing file in bytes.
    pub file_len: u64,
    /// Size of the pool in bytes.
    pub pool_size: i32,
    pub width: i32,
    pub height: i32,
    /// Bytes per row.
    pub stride: i32,
}

/// The layout of a `width` by `height` shared-memory buffer. The pool
/// size, the stride and the dimensions are 32-bit signed numbers, so they
/// must fit in one.
pub fn shm_layout(width: u32, height: u32) -> (r: ShmLayout)
    requires
        width * height * 4 <= i32::MAX,
        width * 4 <= i32::MAX,
        height <= i32::MAX,
    ensures
        r.file_len == width * height * 4,
        r.pool_size == width * height * 4,
        r.width == width,
        r.height == height,
        r.stride == width * 4,
{
    let w = width as i32;
    let h = height as i32;
    assert(w * h * 4 == width * height * 4);
    let file_len = width as u64 * height as u64 * 4;
    ShmLayout { file_len, pool_size: w * h * 4, width: w, height: h, stride: w * 4 }
}

} // verus!
