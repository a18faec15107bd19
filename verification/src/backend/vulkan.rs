//! Naming the GPU behind a DRM device number, from what Vulkan reports
//! about each physical device, with a cache so that each device number is
//! looked up once.

use std::collections::HashMap;
use vstd::prelude::*;
use vstd::utf8::{decode_utf8, valid_utf8};

verus! {

broadcast use vstd::std_specs::hash::group_hash_axioms;

#[verifier::external_type_specification]
#[verifier::external_body]
pub struct ExVkResult(ash::vk::Result);

/// The DRM device numbers Vulkan reports for a physical device.
#[derive(Clone, Copy, Debug, PartialEq, Eq, Structural)]
pub struct DrmProperties {
    pub primary_major: i64,
    pub primary_minor: i64,
    pub render_major: i64,
    pub render_minor: i64,
}

/// What Vulkan reports about one physical device: the names of the device
/// extensions it supports (or the error listing them gave), its DRM device
/// numbers, and its name, each name as the fixed-size C character array
/// Vulkan fills in.
#[derive(Debug)]
pub struct PhysicalDeviceReport {
    pub extensions: Result<Vec<Vec<i8>>, ash::vk::Result>,
    pub drm: DrmProperties,
    pub device_name: Vec<i8>,
}

/// The bytes of C characters.
pub open spec fn bytes_of(chars: Seq<i8>) -> Seq<u8> {
    chars.map_values(|c: i8| c as u8)
}

/// The name of the Vulkan extension that reports DRM device numbers.
pub open spec fn drm_extension_name_bytes() -> Seq<u8> {
    "VK_EXT_physical_device_drm"@.map_values(|c: char| c as u8)
}

/// The major number of a Linux device number.
pub open spec fn major_of(dev: u64) -> u32 {
    (((dev >> 32u64) & 0xffff_f000u64) | ((dev >> 8u64) & 0x0000_0fffu64)) as u32
}

/// The minor number of a Linux device number.
pub open spec fn minor_of(dev: u64) -> u32 {
    (((dev >> 12u64) & 0xffff_ff00u64) | (dev & 0x0000_00ffu64)) as u32
}

/// `n` is the position of the first NUL byte.
pub open spec fn is_first_nul(bytes: Seq<u8>, n: int) -> bool {
    &&& 0 <= n < bytes.len()
    &&& bytes[n] == 0
    &&& forall|j: int| 0 <= j < n ==> bytes[j] != 0
}

/// The C string at the start of `bytes`: the bytes before the first NUL, or
/// nothing when there is no NUL.
pub open spec fn c_string(bytes: Seq<u8>) -> Option<Seq<u8>> {
    if exists|n: int| is_first_nul(bytes, n) {
        Some(bytes.take(choose|n: int| is_first_nul(bytes, n)))
    } else {
        None
    }
}

/// The extension list names the DRM extension.
pub open spec fn supports_drm(extensions: Seq<Vec<i8>>) -> bool {
    exists|k: int|
        0 <= k < extensions.len() && c_string(bytes_of(#[trigger] extensions[k]@)) == Some(
            drm_extension_name_bytes(),
        )
}

/// The DRM properties name device `dev`, as its primary or its render node.
pub open spec fn drm_matches(drm: DrmProperties, dev: u64) -> bool {
    let major = major_of(dev) as i64;
    let minor = minor_of(dev) as i64;
    (drm.primary_major == major && drm.primary_minor == minor) || (drm.render_major == major
        && drm.render_minor == minor)
}

/// A device name read from its C character array: the text before the first
/// NUL, when there is a NUL and that text is valid UTF-8.
pub open spec fn name_of(chars: Seq<i8>) -> Option<Seq<char>> {
    match c_string(bytes_of(chars)) {
        Some(b) => if valid_utf8(b) {
            Some(decode_utf8(b))
        } else {
            None
        },
        None => None,
    }
}

/// The name of the device behind `dev`, from the reports of the physical
/// devices in order: the first device that supports the DRM extension and
/// whose DRM numbers match gives its name; a failed extension listing met
/// before such a device is the error; no match gives no name.
pub open spec fn name_from_reports(reports: Seq<PhysicalDeviceReport>, dev: u64) -> Result<
    Option<Seq<char>>,
    ash::vk::Result,
>
    decreases reports.len(),
{
    if reports.len() == 0 {
        Ok(None)
    } else {
        let r = reports[0];
        match r.extensions {
            Err(e) => Err(e),
            Ok(exts) => if supports_drm(exts@) && drm_matches(r.drm, dev) {
                Ok(name_of(r.device_name@))
            } else {
                name_from_reports(reports.drop_first(), dev)
            },
        }
    }
}

/// What the physical device query answers: the device name for `dev`, or
/// the error of listing the devices.
pub open spec fn name_from_query(
    devices: Result<Vec<PhysicalDeviceReport>, ash::vk::Result>,
    dev: u64,
) -> Result<Option<Seq<char>>, ash::vk::Result> {
    match devices {
        Ok(reports) => name_from_reports(reports@, dev),
        Err(e) => Err(e),
    }
}

/// The view of a looked-up name.
pub open spec fn name_view(v: Result<Option<String>, ash::vk::Result>) -> Result<
    Option<Seq<char>>,
    ash::vk::Result,
> {
    match v {
        Ok(Some(s)) => Ok(Some(s@)),
        Ok(None) => Ok(None),
        Err(e) => Err(e),
    }
}

/// The view of a borrowed looked-up name.
pub open spec fn name_ref_view(v: Result<Option<&str>, ash::vk::Result>) -> Result<
    Option<Seq<char>>,
    ash::vk::Result,
> {
    match v {
        Ok(Some(s)) => Ok(Some(s@)),
        Ok(None) => Ok(None),
        Err(e) => Err(e),
    }
}

/// Reinterprets C characters as bytes, with `bytemuck::cast_slice`; the
/// contract claims that each character becomes the byte with the same bits.
#[verifier::external_body]
fn chars_as_bytes(chars: &[i8]) -> (r: &[u8])
    ensures
        r@ == bytes_of(chars@),
{
    bytemuck::cast_slice::<i8, u8>(chars)
}

/// The bytes of `ash::ext::physical_device_drm::NAME` without its NUL; the
/// contract claims that they spell `VK_EXT_physical_device_drm`.
#[verifier::external_body]
fn drm_extension_name() -> (r: &'static [u8])
    ensures
        r@ == drm_extension_name_bytes(),
{
    ash::ext::physical_device_drm::NAME.to_bytes()
}

/// `rustix::fs::major`; the contract claims the Linux encoding of device
/// numbers.
#[verifier::external_body]
fn dev_major(dev: u64) -> (r: u32)
    ensures
        r == major_of(dev),
{
    rustix::fs::major(dev)
}

/// `rustix::fs::minor`; the contract claims the Linux encoding of device
/// numbers.
#[verifier::external_body]
fn dev_minor(dev: u64) -> (r: u32)
    ensures
        r == minor_of(dev),
{
    rustix::fs::minor(dev)
}

/// `std::str::from_utf8`: the text the bytes encode, when they are valid UTF-8.
#[verifier::external_body]
fn utf8_text(bytes: &[u8]) -> (r: Option<&str>)
    ensures
        r is Some <==> valid_utf8(bytes@),
        r matches Some(s) ==> s@ == decode_utf8(bytes@),
{
    std::str::from_utf8(bytes).ok()
}

proof fn lemma_first_nul_unique(bytes: Seq<u8>, n: int, m: int)
    requires
        is_first_nul(bytes, n),
        is_first_nul(bytes, m),
    ensures
        n == m,
{
    if n < m {
        assert(bytes[n] != 0);
    } else if m < n {
        assert(bytes[m] != 0);
    }
}

/// The length of the C string at the start of `bytes`: the position of the
/// first NUL, or nothing when there is none.
pub fn c_string_len(bytes: &[u8]) -> (r: Option<usize>)
    ensures
        match r {
            Some(n) => c_string(bytes@) == Some(bytes@.take(n as int)) && is_first_nul(bytes@, n as int),
            None => c_string(bytes@) is None,
        },
{
    let mut i: usize = 0;
    while i < bytes.len()
        invariant
            i <= bytes@.len(),
            forall|j: int| 0 <= j < i ==> bytes@[j] != 0,
        decreases bytes@.len() - i,
    {
        if bytes[i] == 0 {
            proof {
                assert(is_first_nul(bytes@, i as int));
                let n = choose|n: int| is_first_nul(bytes@, n);
                lemma_first_nul_unique(bytes@, n, i as int);
            }
            return Some(i);
        }
        i = i + 1;
    }
    proof {
        assert(!exists|n: int| is_first_nul(bytes@, n));
    }
    None
}

/// Whether the C string at the start of `bytes` is `name`.
fn c_string_is(bytes: &[u8], name: &[u8]) -> (r: bool)
    ensures
        r == (c_string(bytes@) == Some(name@)),
{
    match c_string_len(bytes) {
        None => false,
        Some(n) => {
            if n != name.len() {
                proof {
                    assert(bytes@.take(n as int).len() != name@.len());
                }
                return false;
            }
            let mut i: usize = 0;
            while i < n
                invariant
                    n == name@.len(),
                    n < bytes@.len(),
                    i <= n,
                    forall|j: int| 0 <= j < i ==> bytes@[j] == name@[j],
                decreases n - i,
            {
                if bytes[i] != name[i] {
                    proof {
                        assert(bytes@.take(n as int)[i as int] != name@[i as int]);
                    }
                    return false;
                }
                i = i + 1;
            }
            proof {
                assert(bytes@.take(n as int) =~= name@);
            }
            true
        },
    }
}

/// Whether the extension list names the DRM extension.
pub fn extensions_support_drm(extensions: &Vec<Vec<i8>>) -> (r: bool)
    ensures
        r == supports_drm(extensions@),
{
    let name = drm_extension_name();
    let mut k: usize = 0;
    while k < extensions.len()
        invariant
            k <= extensions@.len(),
            name@ == drm_extension_name_bytes(),
            forall|j: int|
                0 <= j < k ==> c_string(bytes_of(#[trigger] extensions@[j]@)) != Some(
                    drm_extension_name_bytes(),
                ),
        decreases extensions@.len() - k,
    {
        let bytes = chars_as_bytes(extensions[k].as_slice());
        if c_string_is(bytes, name) {
            return true;
        }
        k = k + 1;
    }
    false
}

/// The device name in a C character array: the text before the first NUL,
/// when there is a NUL and that text is valid UTF-8.
pub fn device_name_of(chars: &Vec<i8>) -> (r: Option<String>)
    ensures
        match r {
            Some(s) => name_of(chars@) == Some(s@),
            None => name_of(chars@) is None,
        },
{
    let bytes = chars_as_bytes(chars.as_slice());
    match c_string_len(bytes) {
        None => None,
        Some(n) => {
            let text = utf8_text(slice_prefix(bytes, n));
            match text {
                Some(s) => Some(s.to_owned()),
                None => None,
            }
        },
    }
}

/// The first `n` elements of `s`.
fn slice_prefix(s: &[u8], n: usize) -> (r: &[u8])
    requires
        n <= s@.len(),
    ensures
        r@ == s@.take(n as int),
{
    let (head, _) = s.split_at(n);
    proof {
        assert(head@ =~= s@.take(n as int));
    }
    head
}

/// The DRM properties name device `dev`.
pub fn device_matches(drm: &DrmProperties, dev: u64) -> (r: bool)
    ensures
        r == drm_matches(*drm, dev),
{
    let major = dev_major(dev) as i64;
    let minor = dev_minor(dev) as i64;
    (drm.primary_major == major && drm.primary_minor == minor) || (drm.render_major == major
        && drm.render_minor == minor)
}

/// Access to the GPUs through Vulkan, as far as naming them goes: the
/// device names looked up so far, by device number. The Vulkan instance is
/// held by the caller, which answers the physical-device query.
pub struct Vulkan {
    names: HashMap<u64, Result<Option<String>, ash::vk::Result>>,
}

impl Vulkan {
    /// What is cached: for each device number looked up, its name or the
    /// error the lookup gave.
    pub closed spec fn view(&self) -> Map<u64, Result<Option<Seq<char>>, ash::vk::Result>> {
        self.names@.map_values(|v: Result<Option<String>, ash::vk::Result>| name_view(v))
    }

    /// The name of the device behind `dev`, from what the physical device query
    /// answered: the first device that supports the DRM extension and whose DRM
    /// numbers match gives its name (none when it is unreadable); an error met
    /// before, of the query or of an extension listing, is returned; no match
    /// gives no name.
    pub fn device_name_uncached(
        devices: &Result<Vec<PhysicalDeviceReport>, ash::vk::Result>,
        dev: u64,
    ) -> (r: Result<Option<String>, ash::vk::Result>)
        ensures
            name_view(r) == name_from_query(*devices, dev),
    {
        let reports = match devices {
            Err(e) => {
                return Err(*e);
            },
            Ok(reports) => reports,
        };
        let mut i: usize = 0;
        proof {
            assert(reports@.skip(0) =~= reports@);
        }
        while i < reports.len()
            invariant
                i <= reports@.len(),
                name_from_query(*devices, dev) == name_from_reports(reports@.skip(i as int), dev),
            decreases reports@.len() - i,
        {
            let report = &reports[i];
            let ghost rest = reports@.skip(i as int);
            proof {
                assert(rest[0] == reports@[i as int]);
                assert(rest.drop_first() =~= reports@.skip(i + 1));
                assert(name_from_reports(rest, dev) == match rest[0].extensions {
                    Err(e) => Err(e),
                    Ok(exts) => if supports_drm(exts@) && drm_matches(rest[0].drm, dev) {
                        Ok(name_of(rest[0].device_name@))
                    } else {
                        name_from_reports(rest.drop_first(), dev)
                    },
                });
            }
            match &report.extensions {
                Err(e) => {
                    return Err(*e);
                },
                Ok(exts) => {
                    if extensions_support_drm(exts) && device_matches(&report.drm, dev) {
                        return Ok(device_name_of(&report.device_name));
                    }
                },
            }
            i = i + 1;
        }
        proof {
            assert(reports@.skip(i as int).len() == 0);
        }
        Ok(None)
    }

    /// Nothing looked up yet.
    pub fn new() -> (r: Self)
        ensures
            r.view() == Map::<u64, Result<Option<Seq<char>>, ash::vk::Result>>::empty(),
    {
        let r = Vulkan { names: HashMap::new() };
        proof {
            assert(r.view() =~= Map::<u64, Result<Option<Seq<char>>, ash::vk::Result>>::empty());
        }
        r
    }

    /// The name of the device behind `dev`: the cached answer when `dev`
    /// was looked up before; otherwise `query` is asked for the physical
    /// devices, and its answer is named, cached and returned. The query
    /// need only be callable when `dev` is not cached: a device is looked
    /// up once, and a cached one never runs the query.
    pub fn device_name<F: FnOnce() -> Result<Vec<PhysicalDeviceReport>, ash::vk::Result>>(
        &mut self,
        dev: u64,
        query: F,
    ) -> (r: Result<Option<&str>, ash::vk::Result>)
        requires
            !old(self).view().contains_key(dev) ==> query.requires(()),
        ensures
            old(self).view().contains_key(dev) ==> {
                &&& name_ref_view(r) == old(self).view()[dev]
                &&& final(self).view() == old(self).view()
            },
            !old(self).view().contains_key(dev) ==> exists|devices| {
                &&& query.ensures((), devices)
                &&& name_ref_view(r) == name_from_query(devices, dev)
                &&& final(self).view() == old(self).view().insert(
                    dev,
                    name_from_query(devices, dev),
                )
            },
    {
        let ghost old_view = self.view();
        if !self.names.contains_key(&dev) {
            let devices = query();
            let value = Self::device_name_uncached(&devices, dev);
            self.names.insert(dev, value);
            proof {
                assert(self.view() =~= old_view.insert(dev, name_from_query(devices, dev)));
            }
        } else {
            proof {
                assert(self.view() =~= old_view);
            }
        }
        match self.names.get(&dev) {
            Some(Ok(Some(s))) => Ok(Some(s.as_str())),
            Some(Ok(None)) => Ok(None),
            Some(Err(e)) => Err(*e),
            None => Ok(None),
        }
    }
}

} // verus!
