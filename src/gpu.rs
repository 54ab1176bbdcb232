//! Graphics adapter and driver detection over the output of `lspci`,
//! `nvidia-smi`, `lshw`, `modinfo` and `glxinfo`.
use vstd::prelude::*;
use crate::probes::{first_from, opt_view};
use crate::text::{
    chars_of, contains, find_chars, find_from, has_prefix, lines_chars, lines_of, slice_of,
    split_chars, split_nth, starts_with_chars, string_of, trim, trim_chars, views,
};

verus! {

/// What `str::to_lowercase` makes of a text.
pub uninterp spec fn lower_of(s: Seq<char>) -> Seq<char>;

/// Relies on `str::to_lowercase`: Unicode lower case, a function of the text alone.
#[verifier::external_body]
fn lowercase(s: &str) -> (r: String)
    ensures
        r@ == lower_of(s@),
{
    s.to_lowercase()
}

/// The view of an optional owned text.
pub open spec fn text_view(o: Option<String>) -> Option<Seq<char>> {
    match o {
        Some(s) => Some(s@),
        None => None,
    }
}

pub fn opt_str(o: &Option<String>) -> (r: Option<&str>)
    ensures
        opt_view(r) == text_view(*o),
{
    match o {
        Some(s) => Some(s.as_str()),
        None => None,
    }
}

/// Whose driver to look for.
#[derive(Clone, Copy, Debug, PartialEq, Eq, Structural)]
pub enum GpuVendor {
    Nvidia,
    Amd,
    Intel,
    Other,
}

/// What the detection reads: each command's output where it could be run,
/// and whether each kernel module is loaded.
pub struct GpuSources {
    /// `lspci`.
    pub lspci: Option<String>,
    /// `nvidia-smi --query-gpu=name --format=csv,noheader`.
    pub nvidia_smi_name: Option<String>,
    /// `lshw -C display`.
    pub lshw: Option<String>,
    /// `nvidia-smi --query-gpu=driver_version --format=csv,noheader`.
    pub nvidia_smi_driver: Option<String>,
    /// `modinfo nvidia`.
    pub modinfo_nvidia: Option<String>,
    /// Whether the amdgpu module is loaded.
    pub amdgpu_loaded: bool,
    /// `modinfo amdgpu`.
    pub modinfo_amdgpu: Option<String>,
    /// Whether the radeon module is loaded.
    pub radeon_loaded: bool,
    /// `modinfo radeon`.
    pub modinfo_radeon: Option<String>,
    /// Whether the i915 module is loaded.
    pub i915_loaded: bool,
    /// `modinfo i915`.
    pub modinfo_i915: Option<String>,
    /// `glxinfo`.
    pub glxinfo: Option<String>,
}

/// The texts of `GpuSources`.
pub struct GpuView {
    pub lspci: Option<Seq<char>>,
    pub nvidia_smi_name: Option<Seq<char>>,
    pub lshw: Option<Seq<char>>,
    pub nvidia_smi_driver: Option<Seq<char>>,
    pub modinfo_nvidia: Option<Seq<char>>,
    pub amdgpu_loaded: bool,
    pub modinfo_amdgpu: Option<Seq<char>>,
    pub radeon_loaded: bool,
    pub modinfo_radeon: Option<Seq<char>>,
    pub i915_loaded: bool,
    pub modinfo_i915: Option<Seq<char>>,
    pub glxinfo: Option<Seq<char>>,
}

impl View for GpuSources {
    type V = GpuView;

    open spec fn view(&self) -> GpuView {
        GpuView {
            lspci: text_view(self.lspci),
            nvidia_smi_name: text_view(self.nvidia_smi_name),
            lshw: text_view(self.lshw),
            nvidia_smi_driver: text_view(self.nvidia_smi_driver),
            modinfo_nvidia: text_view(self.modinfo_nvidia),
            amdgpu_loaded: self.amdgpu_loaded,
            modinfo_amdgpu: text_view(self.modinfo_amdgpu),
            radeon_loaded: self.radeon_loaded,
            modinfo_radeon: text_view(self.modinfo_radeon),
            i915_loaded: self.i915_loaded,
            modinfo_i915: text_view(self.modinfo_i915),
            glxinfo: text_view(self.glxinfo),
        }
    }
}

/// The vendor named in a lower-cased device line.
pub open spec fn vendor_of(lower: Seq<char>) -> GpuVendor {
    if contains(lower, "nvidia"@) {
        GpuVendor::Nvidia
    } else if contains(lower, "amd"@) || contains(lower, "radeon"@) || contains(lower, "ati"@) {
        GpuVendor::Amd
    } else if contains(lower, "intel"@) {
        GpuVendor::Intel
    } else {
        GpuVendor::Other
    }
}

/// A lower-cased device line that names a display device.
pub open spec fn is_display_line(lower: Seq<char>) -> bool {
    contains(lower, "vga"@) || contains(lower, "display"@) || contains(lower, "3d"@) || contains(
        lower,
        "graphics"@,
    )
}

/// The model and vendor a device line gives, given its lower-cased form:
/// for a display device with at least three `:`-separated fields, the third
/// field trimmed.
pub open spec fn gpu_line_of(line: Seq<char>, lower: Seq<char>) -> Option<(Seq<char>, GpuVendor)> {
    if is_display_line(lower) && split_nth(line, ':', 2) is Some {
        Some((trim(split_nth(line, ':', 2)->0), vendor_of(lower)))
    } else {
        None
    }
}

fn has(s: &[char], p: &str) -> (r: bool)
    ensures
        r == contains(s@, p@),
{
    let pc = chars_of(p);
    find_chars(s, pc.as_slice()).is_some()
}

/// Reads one `lspci` line, given the line and its lower-cased form.
pub fn gpu_from_line(line: &str, lowered: &str) -> (r: Option<(String, GpuVendor)>)
    ensures
        r matches Some(x) ==> gpu_line_of(line@, lowered@) == Some((x.0@, x.1)),
        r is None ==> gpu_line_of(line@, lowered@) is None,
{
    let lc = chars_of(lowered);
    if !(has(lc.as_slice(), "vga") || has(lc.as_slice(), "display") || has(lc.as_slice(), "3d")
        || has(lc.as_slice(), "graphics")) {
        return None;
    }
    let cs = chars_of(line);
    let parts = split_chars(cs.as_slice(), ':');
    assert(views(parts@).len() == parts@.len());
    if parts.len() < 3 {
        return None;
    }
    assert(views(parts@)[2] == parts@[2]@);
    let model = trim_chars(parts[2].as_slice());
    let vendor = if has(lc.as_slice(), "nvidia") {
        GpuVendor::Nvidia
    } else if has(lc.as_slice(), "amd") || has(lc.as_slice(), "radeon") || has(
        lc.as_slice(),
        "ati",
    ) {
        GpuVendor::Amd
    } else if has(lc.as_slice(), "intel") {
        GpuVendor::Intel
    } else {
        GpuVendor::Other
    };
    Some((string_of(model.as_slice()), vendor))
}

pub open spec fn lspci_line() -> spec_fn(Seq<char>) -> bool {
    |l: Seq<char>| gpu_line_of(l, lower_of(l)) is Some
}

/// The model and vendor of the first display device that `lspci` lists.
pub open spec fn lspci_gpu(out: Seq<char>) -> Option<(Seq<char>, GpuVendor)> {
    match first_from(lines_of(out), lspci_line(), 0) {
        Some(k) => gpu_line_of(lines_of(out)[k], lower_of(lines_of(out)[k])),
        None => None,
    }
}

fn lspci_from(out: &str) -> (r: Option<(String, GpuVendor)>)
    ensures
        r matches Some(x) ==> lspci_gpu(out@) == Some((x.0@, x.1)),
        r is None ==> lspci_gpu(out@) is None,
{
    let cs = chars_of(out);
    let ls = lines_chars(cs.as_slice());
    let ghost lv = views(ls@);
    let mut i: usize = 0;
    while i < ls.len()
        invariant
            i <= ls@.len(),
            lv == views(ls@),
            lv == lines_of(out@),
            first_from(lv, lspci_line(), 0) == first_from(lv, lspci_line(), i as int),
        decreases ls@.len() - i,
    {
        assert(lv[i as int] == ls@[i as int]@);
        let line = string_of(ls[i].as_slice());
        let lowered = lowercase(line.as_str());
        let found = gpu_from_line(line.as_str(), lowered.as_str());
        if found.is_some() {
            assert(lspci_line()(lv[i as int]));
            assert(first_from(lv, lspci_line(), i as int) == Some(i as int));
            return found;
        }
        i += 1;
    }
    None
}

pub open spec fn version_line() -> spec_fn(Seq<char>) -> bool {
    |l: Seq<char>| has_prefix(l, "version:"@) && split_nth(l, ':', 1) is Some
}

/// The version that `modinfo` reports: on its first `version:` line, the
/// text after the colon (up to any second one), trimmed.
pub open spec fn modinfo_version(out: Seq<char>) -> Option<Seq<char>> {
    match first_from(lines_of(out), version_line(), 0) {
        Some(k) => Some(trim(split_nth(lines_of(out)[k], ':', 1)->0)),
        None => None,
    }
}

fn modinfo_version_from(out: &str) -> (r: Option<Vec<char>>)
    ensures
        r matches Some(v) ==> modinfo_version(out@) == Some(v@),
        r is None ==> modinfo_version(out@) is None,
{
    let cs = chars_of(out);
    let ls = lines_chars(cs.as_slice());
    let key = chars_of("version:");
    let ghost lv = views(ls@);
    let mut i: usize = 0;
    while i < ls.len()
        invariant
            i <= ls@.len(),
            lv == views(ls@),
            lv == lines_of(out@),
            key@ == "version:"@,
            first_from(lv, version_line(), 0) == first_from(lv, version_line(), i as int),
        decreases ls@.len() - i,
    {
        assert(lv[i as int] == ls@[i as int]@);
        if starts_with_chars(ls[i].as_slice(), key.as_slice()) {
            let parts = split_chars(ls[i].as_slice(), ':');
            assert(views(parts@).len() == parts@.len());
            if parts.len() >= 2 {
                assert(views(parts@)[1] == parts@[1]@);
                assert(version_line()(lv[i as int]));
                assert(first_from(lv, version_line(), i as int) == Some(i as int));
                return Some(trim_chars(parts[1].as_slice()));
            }
        }
        i += 1;
    }
    None
}

pub open spec fn mesa_line() -> spec_fn(Seq<char>) -> bool {
    |l: Seq<char>| contains(l, "Mesa"@)
}

/// The Mesa version that `glxinfo` reports: on its first line that mentions
/// `Mesa`, the text from there to the end of the line, trimmed.
pub open spec fn mesa_version(out: Seq<char>) -> Option<Seq<char>> {
    match first_from(lines_of(out), mesa_line(), 0) {
        Some(k) => Some(
            trim(lines_of(out)[k].skip(find_from(lines_of(out)[k], "Mesa"@, 0)->0)),
        ),
        None => None,
    }
}

fn mesa_version_from(out: &str) -> (r: Option<Vec<char>>)
    ensures
        r matches Some(v) ==> mesa_version(out@) == Some(v@),
        r is None ==> mesa_version(out@) is None,
{
    let cs = chars_of(out);
    let ls = lines_chars(cs.as_slice());
    let key = chars_of("Mesa");
    let ghost lv = views(ls@);
    let mut i: usize = 0;
    while i < ls.len()
        invariant
            i <= ls@.len(),
            lv == views(ls@),
            lv == lines_of(out@),
            key@ == "Mesa"@,
            first_from(lv, mesa_line(), 0) == first_from(lv, mesa_line(), i as int),
        decreases ls@.len() - i,
    {
        assert(lv[i as int] == ls@[i as int]@);
        if let Some(k) = find_chars(ls[i].as_slice(), key.as_slice()) {
            assert(mesa_line()(lv[i as int]));
            assert(first_from(lv, mesa_line(), i as int) == Some(i as int));
            let rest = slice_of(ls[i].as_slice(), k, ls[i].len());
            assert(rest@ =~= lv[i as int].skip(k as int));
            return Some(trim_chars(rest.as_slice()));
        }
        i += 1;
    }
    None
}

/// The NVIDIA driver version: `nvidia-smi`'s answer trimmed when not empty,
/// else the version `modinfo nvidia` reports, else `Unknown`.
pub open spec fn nvidia_driver_of(g: GpuView) -> Seq<char> {
    match g.nvidia_smi_driver {
        Some(o) if trim(o).len() > 0 => trim(o),
        _ => match g.modinfo_nvidia {
            Some(m) if modinfo_version(m) is Some => modinfo_version(m)->0,
            _ => "Unknown"@,
        },
    }
}

pub fn nvidia_driver(g: &GpuSources) -> (r: String)
    ensures
        r@ == nvidia_driver_of(g@),
{
    if let Some(o) = opt_str(&g.nvidia_smi_driver) {
        let cs = chars_of(o);
        let t = trim_chars(cs.as_slice());
        if t.len() > 0 {
            return string_of(t.as_slice());
        }
    }
    if let Some(m) = opt_str(&g.modinfo_nvidia) {
        if let Some(v) = modinfo_version_from(m) {
            return string_of(v.as_slice());
        }
    }
    String::from_str("Unknown")
}

/// The version a loaded module reports through `modinfo`.
pub open spec fn module_version(loaded: bool, modinfo: Option<Seq<char>>) -> Option<Seq<char>> {
    if loaded {
        match modinfo {
            Some(m) => modinfo_version(m),
            None => None,
        }
    } else {
        None
    }
}

fn module_version_from(loaded: bool, modinfo: &Option<String>) -> (r: Option<Vec<char>>)
    ensures
        r matches Some(v) ==> module_version(loaded, text_view(*modinfo)) == Some(v@),
        r is None ==> module_version(loaded, text_view(*modinfo)) is None,
{
    if !loaded {
        return None;
    }
    match opt_str(modinfo) {
        Some(m) => modinfo_version_from(m),
        None => None,
    }
}

/// The Mesa version from `glxinfo`, else `Unknown`.
pub open spec fn mesa_or_unknown(g: GpuView) -> Seq<char> {
    match g.glxinfo {
        Some(o) if mesa_version(o) is Some => mesa_version(o)->0,
        _ => "Unknown"@,
    }
}

fn mesa_or_unknown_from(g: &GpuSources) -> (r: String)
    ensures
        r@ == mesa_or_unknown(g@),
{
    if let Some(o) = opt_str(&g.glxinfo) {
        if let Some(v) = mesa_version_from(o) {
            return string_of(v.as_slice());
        }
    }
    String::from_str("Unknown")
}

/// The AMD driver: `AMDGPU {version}` from a loaded amdgpu module, else
/// `Radeon {version}` from a loaded radeon module, else the Mesa version.
pub open spec fn amd_driver_of(g: GpuView) -> Seq<char> {
    match module_version(g.amdgpu_loaded, g.modinfo_amdgpu) {
        Some(v) => "AMDGPU "@ + v,
        None => match module_version(g.radeon_loaded, g.modinfo_radeon) {
            Some(v) => "Radeon "@ + v,
            None => mesa_or_unknown(g),
        },
    }
}

pub fn amd_driver(g: &GpuSources) -> (r: String)
    ensures
        r@ == amd_driver_of(g@),
{
    if let Some(v) = module_version_from(g.amdgpu_loaded, &g.modinfo_amdgpu) {
        let vs = string_of(v.as_slice());
        return String::from_str("AMDGPU ").concat(vs.as_str());
    }
    if let Some(v) = module_version_from(g.radeon_loaded, &g.modinfo_radeon) {
        let vs = string_of(v.as_slice());
        return String::from_str("Radeon ").concat(vs.as_str());
    }
    mesa_or_unknown_from(g)
}

/// The Intel driver: `i915 {version}` from a loaded i915 module, else the
/// Mesa version.
pub open spec fn intel_driver_of(g: GpuView) -> Seq<char> {
    match module_version(g.i915_loaded, g.modinfo_i915) {
        Some(v) => "i915 "@ + v,
        None => mesa_or_unknown(g),
    }
}

pub fn intel_driver(g: &GpuSources) -> (r: String)
    ensures
        r@ == intel_driver_of(g@),
{
    if let Some(v) = module_version_from(g.i915_loaded, &g.modinfo_i915) {
        let vs = string_of(v.as_slice());
        return String::from_str("i915 ").concat(vs.as_str());
    }
    mesa_or_unknown_from(g)
}

pub open spec fn driver_for(vendor: GpuVendor, g: GpuView) -> Seq<char> {
    match vendor {
        GpuVendor::Nvidia => nvidia_driver_of(g),
        GpuVendor::Amd => amd_driver_of(g),
        GpuVendor::Intel => intel_driver_of(g),
        GpuVendor::Other => "Unknown"@,
    }
}

pub open spec fn product_line() -> spec_fn(Seq<char>) -> bool {
    |l: Seq<char>| contains(l, "product:"@) && split_nth(l, ':', 1) is Some
}

/// The product that `lshw` names: on its first `product:` line, the text
/// after the first colon (up to any second one), trimmed.
pub open spec fn lshw_product(out: Seq<char>) -> Option<Seq<char>> {
    match first_from(lines_of(out), product_line(), 0) {
        Some(k) => Some(trim(split_nth(lines_of(out)[k], ':', 1)->0)),
        None => None,
    }
}

fn lshw_product_from(out: &str) -> (r: Option<Vec<char>>)
    ensures
        r matches Some(v) ==> lshw_product(out@) == Some(v@),
        r is None ==> lshw_product(out@) is None,
{
    let cs = chars_of(out);
    let ls = lines_chars(cs.as_slice());
    let ghost lv = views(ls@);
    let mut i: usize = 0;
    while i < ls.len()
        invariant
            i <= ls@.len(),
            lv == views(ls@),
            lv == lines_of(out@),
            first_from(lv, product_line(), 0) == first_from(lv, product_line(), i as int),
        decreases ls@.len() - i,
    {
        assert(lv[i as int] == ls@[i as int]@);
        if has(ls[i].as_slice(), "product:") {
            let parts = split_chars(ls[i].as_slice(), ':');
            assert(views(parts@).len() == parts@.len());
            if parts.len() >= 2 {
                assert(views(parts@)[1] == parts@[1]@);
                assert(product_line()(lv[i as int]));
                assert(first_from(lv, product_line(), i as int) == Some(i as int));
                return Some(trim_chars(parts[1].as_slice()));
            }
        }
        i += 1;
    }
    None
}

/// The adapter and its driver: from the first display device that `lspci`
/// lists; else the name `nvidia-smi` gives, when it gives any, with the
/// NVIDIA driver; else the product `lshw` names, with the AMD driver; else
/// `Unknown GPU` and `Unknown`.
pub open spec fn gpu_of(g: GpuView) -> (Seq<char>, Seq<char>) {
    match g.lspci {
        Some(o) if lspci_gpu(o) is Some => (
            (lspci_gpu(o)->0).0,
            driver_for((lspci_gpu(o)->0).1, g),
        ),
        _ => match g.nvidia_smi_name {
            Some(n) if n.len() > 0 => (trim(n), nvidia_driver_of(g)),
            _ => match g.lshw {
                Some(o) if lshw_product(o) is Some => (lshw_product(o)->0, amd_driver_of(g)),
                _ => ("Unknown GPU"@, "Unknown"@),
            },
        },
    }
}

/// Detects the graphics adapter and its driver version.
pub fn gpu_info(g: &GpuSources) -> (r: (String, String))
    ensures
        r.0@ == gpu_of(g@).0,
        r.1@ == gpu_of(g@).1,
{
    if let Some(o) = opt_str(&g.lspci) {
        if let Some((name, vendor)) = lspci_from(o) {
            let driver = match vendor {
                GpuVendor::Nvidia => nvidia_driver(g),
                GpuVendor::Amd => amd_driver(g),
                GpuVendor::Intel => intel_driver(g),
                GpuVendor::Other => String::from_str("Unknown"),
            };
            return (name, driver);
        }
    }
    if let Some(n) = opt_str(&g.nvidia_smi_name) {
        let cs = chars_of(n);
        if cs.len() > 0 {
            let t = trim_chars(cs.as_slice());
            return (string_of(t.as_slice()), nvidia_driver(g));
        }
    }
    if let Some(o) = opt_str(&g.lshw) {
        if let Some(p) = lshw_product_from(o) {
            return (string_of(p.as_slice()), amd_driver(g));
        }
    }
    (String::from_str("Unknown GPU"), String::from_str("Unknown"))
}

} // verus!
