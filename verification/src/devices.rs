//! Storage devices as the device picker shows them: a display name, a size
//! class, and the order (removable media first, then by path).
use vstd::prelude::*;
use crate::text::{
    chars_of, decimal_chars, owned, push_decimal, push_range, push_str, string_of, sub_chars,
    lemma_trim_ends, trim_bounds, trim_end_seq, trim_seq, trim_start_seq,
};

verus! {

/// A storage device as the device inventory reports it.
#[derive(Debug, Clone)]
pub struct RawDeviceInfo {
    pub device_name: String,
    pub vendor_name: String,
    pub model_name: String,
    pub removable: u8,
    /// Capacity in 512-byte sectors.
    pub size: u64,
}

/// A storage device as the picker shows it.
#[derive(Debug, Clone)]
pub struct StorageDeviceInfo {
    /// Human friendly name, e.g. "SanDisk Ultra" or basename of the device
    pub name: String,
    /// Full device path, e.g. "/dev/sdb"
    pub path: String,
    /// Human readable size, e.g. "59.6 GB"
    pub size: String,
    pub removable: bool,
    pub model: String,
}

/// The mathematical value of a `StorageDeviceInfo`.
pub struct DeviceView {
    pub name: Seq<char>,
    pub path: Seq<char>,
    pub size: Seq<char>,
    pub removable: bool,
    pub model: Seq<char>,
}

impl View for StorageDeviceInfo {
    type V = DeviceView;

    open spec fn view(&self) -> DeviceView {
        DeviceView {
            name: self.name@,
            path: self.path@,
            size: self.size@,
            removable: self.removable,
            model: self.model@,
        }
    }
}

// ---------------------------------------------------------------------------
// Sizes
// ---------------------------------------------------------------------------
/// Bytes in a sector.
pub const SECTOR_SIZE: u64 = 512;

/// A capacity in bytes, ready to be printed: below 1000 bytes an exact
/// label; otherwise the byte count with the decimal unit (TB, GB, MB or KB)
/// to divide it by and print with one decimal.
#[derive(Debug, Clone, PartialEq)]
pub enum SizeLabel {
    Exact(String),
    Scaled { bytes: u64, divisor: u64, unit: String },
}

/// The capacity in bytes of `sectors` sectors, saturating at `u64::MAX`.
pub open spec fn sectors_bytes(sectors: u64) -> u64 {
    if sectors * 512 > u64::MAX {
        u64::MAX
    } else {
        (sectors * 512) as u64
    }
}

/// The size label of a capacity given in sectors.
pub fn size_label_from_sectors(sectors: u64) -> (r: SizeLabel)
    ensures
        ({
            let bytes = sectors_bytes(sectors);
            match r {
                SizeLabel::Exact(s) => bytes < 1000 && s@ == decimal_chars(bytes as nat) + " B"@,
                SizeLabel::Scaled { bytes: b, divisor, unit } => b == bytes && bytes >= 1000 && (
                if bytes >= 1_000_000_000_000 {
                    divisor == 1_000_000_000_000 && unit@ == "TB"@
                } else if bytes >= 1_000_000_000 {
                    divisor == 1_000_000_000 && unit@ == "GB"@
                } else if bytes >= 1_000_000 {
                    divisor == 1_000_000 && unit@ == "MB"@
                } else {
                    divisor == 1_000 && unit@ == "KB"@
                }),
            }
        }),
{
    let bytes = match sectors.checked_mul(SECTOR_SIZE) {
        Some(b) => b,
        None => u64::MAX,
    };
    if bytes >= 1_000_000_000_000 {
        SizeLabel::Scaled { bytes, divisor: 1_000_000_000_000, unit: owned("TB") }
    } else if bytes >= 1_000_000_000 {
        SizeLabel::Scaled { bytes, divisor: 1_000_000_000, unit: owned("GB") }
    } else if bytes >= 1_000_000 {
        SizeLabel::Scaled { bytes, divisor: 1_000_000, unit: owned("MB") }
    } else if bytes >= 1_000 {
        SizeLabel::Scaled { bytes, divisor: 1_000, unit: owned("KB") }
    } else {
        let mut s = String::new();
        push_decimal(&mut s, bytes);
        push_str(&mut s, " B");
        assert(s@ =~= decimal_chars(bytes as nat) + " B"@);
        SizeLabel::Exact(s)
    }
}

// ---------------------------------------------------------------------------
// Names
// ---------------------------------------------------------------------------
/// The part of `d` after its last `/` (all of `d` when it has none).
pub open spec fn after_last_slash(d: Seq<char>) -> Seq<char>
    decreases d.len(),
{
    if d.len() == 0 {
        d
    } else if d.last() == '/' {
        Seq::empty()
    } else {
        after_last_slash(d.drop_last()).push(d.last())
    }
}

/// The name shown for a device: vendor and model (trimmed), or else the
/// last component of the device path; "Unknown Device" when that is empty.
pub open spec fn display_name_spec(vendor: Seq<char>, model: Seq<char>, device: Seq<char>) -> Seq<
    char,
> {
    let v = trim_seq(vendor);
    let m = trim_seq(model);
    let name = if v.len() > 0 || m.len() > 0 {
        trim_seq(v + " "@ + m)
    } else {
        after_last_slash(device)
    };
    if name.len() == 0 {
        "Unknown Device"@
    } else {
        name
    }
}

/// The last component of `device` (after its last `/`).
fn last_component(device: &str) -> (r: Vec<char>)
    ensures
        r@ == after_last_slash(device@),
{
    let v = chars_of(device);
    let mut j = v.len();
    assert(v@.take(j as int) =~= v@);
    assert(v@ + v@.subrange(j as int, j as int) =~= v@);
    while j > 0 && v[j - 1] != '/'
        invariant
            j <= v@.len(),
            v@ == device@,
            after_last_slash(device@) == after_last_slash(v@.take(j as int)) + v@.subrange(
                j as int,
                v@.len() as int,
            ),
        decreases j,
    {
        assert(v@.take(j as int).drop_last() =~= v@.take(j - 1));
        assert(v@.subrange(j - 1, v@.len() as int) =~= seq![v@[j - 1]] + v@.subrange(
            j as int,
            v@.len() as int,
        ));
        j = j - 1;
    }
    assert(v@.take(v@.len() as int) =~= v@);
    if j == 0 {
        assert(v@.take(0) =~= Seq::<char>::empty());
    } else {
        assert(v@.take(j as int).last() == '/');
    }
    assert(Seq::<char>::empty() + v@.subrange(j as int, v@.len() as int) =~= v@.subrange(
        j as int,
        v@.len() as int,
    ));
    sub_chars(&v, j, v.len())
}

/// The trimmed characters of `s`.
fn trimmed(s: &str) -> (r: Vec<char>)
    ensures
        r@ == trim_seq(s@),
{
    let v = chars_of(s);
    let (a, b) = trim_bounds(&v);
    sub_chars(&v, a, b)
}

/// The name shown for a device.
pub fn device_display_name(vendor: &str, model: &str, device: &str) -> (r: String)
    ensures
        r@ == display_name_spec(vendor@, model@, device@),
{
    let v = trimmed(vendor);
    let m = trimmed(model);
    let name = if v.len() > 0 || m.len() > 0 {
        let mut joined = string_of(&v);
        push_str(&mut joined, " ");
        push_range(&mut joined, &m, 0, m.len());
        assert(m@.subrange(0, m@.len() as int) =~= m@);
        trimmed(joined.as_str())
    } else {
        last_component(device)
    };
    if name.len() == 0 {
        owned("Unknown Device")
    } else {
        string_of(&name)
    }
}

/// The device as shown in the picker; `size` is its printed capacity.
pub fn storage_device_info(raw: &RawDeviceInfo, size: String) -> (r: StorageDeviceInfo)
    ensures
        r.name@ == display_name_spec(raw.vendor_name@, raw.model_name@, raw.device_name@),
        r.path@ == raw.device_name@,
        r.size@ == size@,
        r.removable == (raw.removable != 0),
        r.model@ == trim_seq(raw.model_name@),
{
    let name = device_display_name(
        raw.vendor_name.as_str(),
        raw.model_name.as_str(),
        raw.device_name.as_str(),
    );
    let model = string_of(&trimmed(raw.model_name.as_str()));
    StorageDeviceInfo {
        name,
        path: owned(raw.device_name.as_str()),
        size,
        removable: raw.removable != 0,
        model,
    }
}

// ---------------------------------------------------------------------------
// Order
// ---------------------------------------------------------------------------
/// `a` sorts before `b` character by character (the order of `String`).
pub open spec fn seq_lt(a: Seq<char>, b: Seq<char>) -> bool
    decreases a.len(),
{
    if b.len() == 0 {
        false
    } else if a.len() == 0 {
        true
    } else if (a[0] as u32) < (b[0] as u32) {
        true
    } else if a[0] == b[0] {
        seq_lt(a.drop_first(), b.drop_first())
    } else {
        false
    }
}

/// Exactly one of `a < b`, `a == b`, `b < a` holds.
pub proof fn lemma_seq_lt_trichotomy(a: Seq<char>, b: Seq<char>)
    ensures
        seq_lt(a, b) || a == b || seq_lt(b, a),
        !(seq_lt(a, b) && seq_lt(b, a)),
        seq_lt(a, b) ==> a != b,
    decreases a.len(),
{
    if a.len() > 0 && b.len() > 0 && a[0] == b[0] {
        lemma_seq_lt_trichotomy(a.drop_first(), b.drop_first());
        if a.drop_first() == b.drop_first() {
            assert(a =~= seq![a[0]] + a.drop_first());
            assert(b =~= seq![b[0]] + b.drop_first());
        }
    } else if a.len() == 0 && b.len() == 0 {
        assert(a =~= b);
    } else if a.len() > 0 && b.len() > 0 {
        vstd::utf8::char_u32_cast(a[0], a[0] as u32);
        vstd::utf8::char_u32_cast(b[0], b[0] as u32);
    }
}

/// `<` on strings is transitive.
pub proof fn lemma_seq_lt_transitive(a: Seq<char>, b: Seq<char>, c: Seq<char>)
    requires
        seq_lt(a, b),
        seq_lt(b, c),
    ensures
        seq_lt(a, c),
    decreases a.len(),
{
    if a.len() > 0 && a[0] == b[0] && b[0] == c[0] {
        lemma_seq_lt_transitive(a.drop_first(), b.drop_first(), c.drop_first());
    }
}

/// `x` sorts strictly before `y`: removable before fixed, then by path.
pub open spec fn device_before(x: DeviceView, y: DeviceView) -> bool {
    (x.removable && !y.removable) || (x.removable == y.removable && seq_lt(x.path, y.path))
}

/// `x` and `y` sort alike.
pub open spec fn device_ties(x: DeviceView, y: DeviceView) -> bool {
    x.removable == y.removable && x.path == y.path
}

/// `order` lists the positions of `s` in stably sorted order: each position
/// once, sorted by `device_before`, ties in their input order.
pub open spec fn is_stable_order(s: Seq<DeviceView>, order: Seq<int>) -> bool {
    &&& order.len() == s.len()
    &&& forall|k: int| 0 <= k < order.len() ==> 0 <= #[trigger] order[k] < s.len()
    &&& forall|i: int, j: int|
        0 <= i < j < order.len() ==> device_before(s[#[trigger] order[i]], s[#[trigger] order[j]])
            || (device_ties(s[order[i]], s[order[j]]) && order[i] < order[j])
}

/// The views of a sequence of devices.
pub open spec fn device_views(v: Seq<StorageDeviceInfo>) -> Seq<DeviceView> {
    v.map_values(|d: StorageDeviceInfo| d@)
}

fn chars_lt(a: &Vec<char>, b: &Vec<char>) -> (r: bool)
    ensures
        r == seq_lt(a@, b@),
{
    let mut i: usize = 0;
    assert(a@.skip(0) =~= a@);
    assert(b@.skip(0) =~= b@);
    while i < a.len() && i < b.len() && a[i] == b[i]
        invariant
            i <= a@.len(),
            i <= b@.len(),
            seq_lt(a@, b@) == seq_lt(a@.skip(i as int), b@.skip(i as int)),
        decreases a@.len() - i,
    {
        assert(a@.skip(i as int).drop_first() =~= a@.skip(i + 1));
        assert(b@.skip(i as int).drop_first() =~= b@.skip(i + 1));
        i = i + 1;
    }
    if i >= b.len() {
        false
    } else if i >= a.len() {
        true
    } else {
        (a[i] as u32) < (b[i] as u32)
    }
}

fn device_before_exec(x: &StorageDeviceInfo, y: &StorageDeviceInfo) -> (r: bool)
    ensures
        r == device_before(x@, y@),
{
    if x.removable && !y.removable {
        return true;
    }
    if x.removable != y.removable {
        return false;
    }
    let xp = chars_of(x.path.as_str());
    let yp = chars_of(y.path.as_str());
    chars_lt(&xp, &yp)
}

proof fn lemma_device_cases(x: DeviceView, y: DeviceView)
    ensures
        device_before(x, y) || device_ties(x, y) || device_before(y, x),
        !(device_before(x, y) && device_before(y, x)),
        !(device_before(x, y) && device_ties(x, y)),
{
    lemma_seq_lt_trichotomy(x.path, y.path);
}

proof fn lemma_device_before_after_le(x: DeviceView, y: DeviceView, z: DeviceView)
    requires
        device_before(x, y),
        device_before(y, z) || device_ties(y, z),
    ensures
        device_before(x, z),
{
    if device_before(y, z) && x.removable == y.removable && y.removable == z.removable {
        lemma_seq_lt_transitive(x.path, y.path, z.path);
    }
}

/// The positions of `devs` in the order the picker lists them: removable
/// devices first, then by path; devices that sort alike keep their order.
pub fn sorted_device_order(devs: &Vec<StorageDeviceInfo>) -> (r: Vec<usize>)
    ensures
        is_stable_order(device_views(devs@), r@.map_values(|k: usize| k as int)),
{
    let ghost s = device_views(devs@);
    let mut order: Vec<usize> = Vec::new();
    let mut m: usize = 0;
    while m < devs.len()
        invariant
            m <= devs@.len(),
            s == device_views(devs@),
            order@.len() == m,
            forall|k: int| 0 <= k < m ==> #[trigger] order@[k] < m,
            forall|i: int, j: int|
                0 <= i < j < m ==> device_before(s[#[trigger] order@[i] as int], s[#[trigger] order@[j] as int])
                    || (device_ties(s[order@[i] as int], s[order@[j] as int]) && order@[i] < order@[j]),
        decreases devs@.len() - m,
    {
        let mut p: usize = 0;
        while p < order.len() && !device_before_exec(&devs[m], &devs[order[p]])
            invariant
                m < devs@.len(),
                s == device_views(devs@),
                p <= order@.len() == m,
                forall|k: int| 0 <= k < m ==> #[trigger] order@[k] < m,
                forall|q: int| 0 <= q < p ==> !device_before(s[m as int], s[#[trigger] order@[q] as int]),
            decreases m - p,
        {
            p = p + 1;
        }
        let ghost old_order = order@;
        order.insert(p, m);
        proof {
            assert(s[m as int] == devs@[m as int]@);
            assert forall|k: int| 0 <= k < m + 1 implies #[trigger] order@[k] < m + 1 by {
                if k < p {
                    assert(order@[k] == old_order[k]);
                } else if k > p {
                    assert(order@[k] == old_order[k - 1]);
                }
            }
            assert forall|i: int, j: int|
                0 <= i < j < m + 1 implies device_before(s[#[trigger] order@[i] as int], s[#[trigger] order@[j] as int])
                || (device_ties(s[order@[i] as int], s[order@[j] as int]) && order@[i] < order@[j]) by {
                let oi = order@[i] as int;
                let oj = order@[j] as int;
                if i < p && j < p {
                    assert(order@[i] == old_order[i] && order@[j] == old_order[j]);
                } else if i < p && j == p {
                    assert(order@[i] == old_order[i]);
                    assert(!device_before(s[m as int], s[oi]));
                    lemma_device_cases(s[m as int], s[oi]);
                    if device_ties(s[m as int], s[oi]) {
                        assert(device_ties(s[oi], s[m as int]));
                    }
                } else if i < p && j > p {
                    assert(order@[i] == old_order[i] && order@[j] == old_order[j - 1]);
                } else if i == p {
                    assert(order@[j] == old_order[j - 1]);
                    assert(device_before(s[m as int], s[old_order[p as int] as int]));
                    if j - 1 > p {
                        assert(order@[p + 1] == old_order[p as int]);
                        let op = old_order[p as int] as int;
                        assert(device_before(s[op], s[oj]) || (device_ties(s[op], s[oj])
                            && op < oj));
                        lemma_device_before_after_le(s[m as int], s[op], s[oj]);
                    }
                } else {
                    assert(order@[i] == old_order[i - 1] && order@[j] == old_order[j - 1]);
                }
            }
        }
        m = m + 1;
    }
    proof {
        let o = order@.map_values(|k: usize| k as int);
        assert forall|k: int| 0 <= k < o.len() implies 0 <= #[trigger] o[k] < s.len() by {
            assert(o[k] == order@[k] as int);
        }
        assert forall|i: int, j: int|
            0 <= i < j < o.len() implies device_before(s[#[trigger] o[i]], s[#[trigger] o[j]])
            || (device_ties(s[o[i]], s[o[j]]) && o[i] < o[j]) by {
            assert(o[i] == order@[i] as int && o[j] == order@[j] as int);
        }
    }
    order
}

fn copy_device(d: &StorageDeviceInfo) -> (r: StorageDeviceInfo)
    ensures
        r@ == d@,
{
    StorageDeviceInfo {
        name: owned(d.name.as_str()),
        path: owned(d.path.as_str()),
        size: owned(d.size.as_str()),
        removable: d.removable,
        model: owned(d.model.as_str()),
    }
}

/// The devices in the order the picker lists them: removable devices first,
/// then by path; devices that sort alike keep their order.
pub fn sort_storage_devices(devs: &Vec<StorageDeviceInfo>) -> (r: Vec<StorageDeviceInfo>)
    ensures
        r@.len() == devs@.len(),
        exists|order: Seq<int>|
            is_stable_order(device_views(devs@), order) && forall|k: int|
                0 <= k < order.len() ==> #[trigger] r@[k]@ == devs@[order[k]]@,
{
    let order = sorted_device_order(devs);
    let ghost o = order@.map_values(|k: usize| k as int);
    let mut out: Vec<StorageDeviceInfo> = Vec::new();
    let mut k: usize = 0;
    while k < order.len()
        invariant
            k <= order@.len() == devs@.len(),
            is_stable_order(device_views(devs@), o),
            o == order@.map_values(|k: usize| k as int),
            out@.len() == k,
            forall|j: int| 0 <= j < k ==> #[trigger] out@[j]@ == devs@[o[j]]@,
        decreases order@.len() - k,
    {
        assert(o[k as int] == order@[k as int] as int);
        assert(0 <= o[k as int] < devs@.len());
        out.push(copy_device(&devs[order[k]]));
        k = k + 1;
    }
    out
}

/// In the picker's order every removable device comes before every fixed
/// one, and paths ascend within each group.
pub proof fn lemma_removable_first(s: Seq<DeviceView>, order: Seq<int>)
    requires
        is_stable_order(s, order),
    ensures
        forall|i: int, j: int|
            0 <= i < j < order.len() && (#[trigger] s[order[j]]).removable ==> (#[trigger] s[order[i]]).removable,
        forall|i: int, j: int|
            0 <= i < j < order.len() && (#[trigger] s[order[i]]).removable == (#[trigger] s[order[j]]).removable
                ==> seq_lt(s[order[i]].path, s[order[j]].path) || s[order[i]].path == s[order[j]].path,
{
    assert forall|i: int, j: int|
        0 <= i < j < order.len() && (#[trigger] s[order[j]]).removable implies (#[trigger] s[order[i]]).removable by {
        assert(device_before(s[order[i]], s[order[j]]) || (device_ties(s[order[i]], s[order[j]])
            && order[i] < order[j]));
    }
    assert forall|i: int, j: int|
        0 <= i < j < order.len() && (#[trigger] s[order[i]]).removable == (#[trigger] s[order[j]]).removable
            implies seq_lt(s[order[i]].path, s[order[j]].path) || s[order[i]].path == s[order[j]].path by {
        assert(device_before(s[order[i]], s[order[j]]) || (device_ties(s[order[i]], s[order[j]])
            && order[i] < order[j]));
    }
}

proof fn lemma_after_last_slash(d: Seq<char>)
    ensures
        after_last_slash(d).len() <= d.len(),
        after_last_slash(d) == d.skip(d.len() - after_last_slash(d).len()),
        forall|i: int| 0 <= i < after_last_slash(d).len() ==> after_last_slash(d)[i] != '/',
        after_last_slash(d).len() < d.len() ==> d[d.len() - after_last_slash(d).len() - 1] == '/',
    decreases d.len(),
{
    if d.len() > 0 && d.last() != '/' {
        let p = d.drop_last();
        lemma_after_last_slash(p);
        let r = after_last_slash(p);
        assert(d.skip(d.len() - r.len() - 1) =~= p.skip(p.len() - r.len()).push(d.last()));
        if r.len() < p.len() {
            assert(d[d.len() - r.len() - 2] == p[p.len() - r.len() - 1]);
        }
    } else if d.len() > 0 {
        assert(d.skip(d.len() as int) =~= Seq::<char>::empty());
    } else {
        assert(d.skip(0) =~= d);
    }
}

/// The name shown for a device is its vendor and model when either is given
/// (each trimmed, one space between when both are): only the vendor when
/// the model is blank, only the model when the vendor is blank. With neither,
/// it is the last component of the device path (what follows its last `/`),
/// or "Unknown Device" when that is empty.
pub proof fn lemma_display_name_parts(vendor: Seq<char>, model: Seq<char>, device: Seq<char>)
    ensures
        ({
            let v = trim_seq(vendor);
            let m = trim_seq(model);
            let d = display_name_spec(vendor, model, device);
            &&& v.len() > 0 && m.len() == 0 ==> d == v
            &&& v.len() == 0 && m.len() > 0 ==> d == m
            &&& v.len() > 0 && m.len() > 0 ==> d == v + seq![' '] + m
            &&& v.len() == 0 && m.len() == 0 ==> d == "Unknown Device"@ || ({
                &&& d.len() > 0
                &&& d.len() <= device.len()
                &&& d == device.skip(device.len() - d.len())
                &&& forall|i: int| 0 <= i < d.len() ==> d[i] != '/'
                &&& d.len() < device.len() ==> device[device.len() - d.len() - 1] == '/'
            })
        }),
{
    reveal_strlit(" ");
    assert(" "@ =~= seq![' ']);
    let v = trim_seq(vendor);
    let m = trim_seq(model);
    lemma_trim_ends(vendor);
    lemma_trim_ends(model);
    let s = v + " "@ + m;
    if v.len() > 0 && m.len() == 0 {
        assert(s =~= v.push(' '));
        assert(s[0] == v[0]);
        assert(trim_start_seq(s) == s);
        assert(s.drop_last() =~= v);
        assert(trim_end_seq(s) == trim_end_seq(v));
        assert(trim_end_seq(v) == v);
    } else if v.len() == 0 && m.len() > 0 {
        assert(s =~= seq![' '] + m);
        assert(s.drop_first() =~= m);
        assert(trim_start_seq(s) == trim_start_seq(m));
        assert(trim_start_seq(m) == m);
        assert(trim_end_seq(m) == m);
    } else if v.len() > 0 && m.len() > 0 {
        assert(s[0] == v[0]);
        assert(s.last() == m.last());
        assert(trim_start_seq(s) == s);
        assert(trim_end_seq(s) == s);
    } else {
        lemma_after_last_slash(device);
    }
}

/// Whether `a` comes before `b` at position `k`: they agree before `k`, and
/// there `a` has ended while `b` goes on, or `a` has the smaller character.
pub open spec fn differs_first_at(a: Seq<char>, b: Seq<char>, k: int) -> bool {
    &&& 0 <= k <= a.len()
    &&& k < b.len()
    &&& a.take(k) == b.take(k)
    &&& (k == a.len() || (a[k] as u32) < (b[k] as u32))
}

/// Paths are compared character by character by code point, a proper
/// prefix first (the order of `str`'s `<`).
pub proof fn lemma_seq_lt_is_lexicographic(a: Seq<char>, b: Seq<char>)
    ensures
        seq_lt(a, b) <==> exists|k: int| #[trigger] differs_first_at(a, b, k),
    decreases a.len(),
{
    if b.len() == 0 {
        assert forall|k: int| !#[trigger] differs_first_at(a, b, k) by {}
    } else if a.len() == 0 {
        assert(a.take(0) =~= b.take(0));
        assert(differs_first_at(a, b, 0));
    } else {
        let a1 = a.drop_first();
        let b1 = b.drop_first();
        lemma_seq_lt_is_lexicographic(a1, b1);
        if (a[0] as u32) < (b[0] as u32) {
            assert(a.take(0) =~= b.take(0));
            assert(differs_first_at(a, b, 0));
        } else if a[0] == b[0] {
            if seq_lt(a1, b1) {
                let k = choose|k: int| #[trigger] differs_first_at(a1, b1, k);
                assert(a.take(k + 1) =~= seq![a[0]] + a1.take(k));
                assert(b.take(k + 1) =~= seq![b[0]] + b1.take(k));
                assert(differs_first_at(a, b, k + 1));
            }
            if exists|k: int| #[trigger] differs_first_at(a, b, k) {
                let k = choose|k: int| #[trigger] differs_first_at(a, b, k);
                if k == 0 {
                    assert((a[0] as u32) < (b[0] as u32));
                } else {
                    assert(a1.take(k - 1) =~= a.take(k).drop_first());
                    assert(b1.take(k - 1) =~= b.take(k).drop_first());
                    assert(differs_first_at(a1, b1, k - 1));
                }
            }
        } else {
            assert forall|k: int| !#[trigger] differs_first_at(a, b, k) by {
                if differs_first_at(a, b, k) && k > 0 {
                    assert(a.take(k)[0] == b.take(k)[0]);
                }
            }
        }
    }
}

/// Sorting rearranges the devices: no device is taken twice, so the order
/// is a permutation of the input.
pub proof fn lemma_sort_is_permutation(s: Seq<DeviceView>, order: Seq<int>)
    requires
        is_stable_order(s, order),
    ensures
        forall|i: int, j: int| 0 <= i < j < order.len() ==> order[i] != order[j],
{
    assert forall|i: int, j: int| 0 <= i < j < order.len() implies order[i] != order[j] by {
        assert(device_before(s[order[i]], s[order[j]]) || (device_ties(s[order[i]], s[order[j]])
            && order[i] < order[j]));
        lemma_seq_lt_trichotomy(s[order[i]].path, s[order[j]].path);
    }
}

/// A capacity in bytes is the sector count times 512, or `u64::MAX` when
/// that does not fit.
pub proof fn lemma_sectors_bytes(sectors: u64)
    ensures
        sectors * 512 <= u64::MAX ==> sectors_bytes(sectors) == sectors * 512,
        sectors * 512 > u64::MAX ==> sectors_bytes(sectors) == u64::MAX,
{
}

} // verus!
