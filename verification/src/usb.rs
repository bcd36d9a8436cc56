//! USB side of the badge: backend selection, device matching, device ids,
//! and the framing of a payload into the reports that are written.
//!
//! The transfers themselves are made by the caller with the chosen USB
//! library; everything decided before and around them is here.
use crate::protocol::{CHUNK_SIZE, MAX_PAYLOAD_SIZE};
use crate::text::{
    decimal, first_index, lemma_first_index, lemma_no_index, parse_u8, parse_u8_spec,
    push_decimal, str_chars, str_eq, sub_chars,
};
use vstd::prelude::*;

verus! {

/// USB vendor id of the badge.
pub const VENDOR_ID: u16 = 0x0416;

/// USB product id of the badge.
pub const PRODUCT_ID: u16 = 0x5020;

/// Why a USB operation was refused.
#[derive(Debug)]
pub enum UsbError {
    /// The backend name is not one of `auto`, `hidapi`, `libusb`, `rusb`.
    UnknownBackend(String),
    /// The payload is longer than `MAX_PAYLOAD_SIZE` bytes; holds its length.
    DataTooLarge(usize),
    /// A device id is not of the form `bus:address`.
    InvalidDeviceId,
    /// The bus part of a device id is not a number from 0 to 255.
    InvalidBus,
    /// The address part of a device id is not a number from 0 to 255.
    InvalidAddress,
    /// No badge sits at the requested `bus:address`; holds the id as given.
    DeviceNotFound(String),
    /// No badge is connected.
    NoBadge,
    /// A device's descriptor could not be read while listing devices.
    DescriptorUnavailable,
}

/// A device as the USB library lists it.
pub struct UsbDeviceEntry {
    /// Vendor and product id, or `None` where the device descriptor could not be read.
    pub ids: Option<(u16, u16)>,
    /// Path of a HID device, where it is valid UTF-8.
    pub path: Option<String>,
    /// Bus number (0 in hidapi listings, which do not use it).
    pub bus: u8,
    /// Address on the bus (0 in hidapi listings, which do not use it).
    pub address: u8,
}

/// A device to write to, by bus and address, with the id as the user wrote it.
pub struct DeviceTarget {
    pub bus: u8,
    pub address: u8,
    pub id: String,
}

/// What a write sends: the device it goes to (for libusb, where one was
/// named) and the reports, one transfer each, in order.
pub struct WriteRequest {
    pub target: Option<DeviceTarget>,
    pub reports: Vec<Vec<u8>>,
}

/// The ids are those of a badge.
pub open spec fn is_badge(ids: Option<(u16, u16)>) -> bool {
    ids == Some((VENDOR_ID, PRODUCT_ID))
}

/// Number of chunks of `CHUNK_SIZE` bytes that hold `len` bytes.
pub open spec fn chunk_count(len: nat) -> nat {
    (len + (CHUNK_SIZE - 1)) as nat / (CHUNK_SIZE as nat)
}

/// Chunk `i` of `data`: up to `CHUNK_SIZE` bytes starting at `i * CHUNK_SIZE`.
pub open spec fn chunk_at(data: Seq<u8>, i: int) -> Seq<u8> {
    let start = i * CHUNK_SIZE;
    let end = if start + CHUNK_SIZE <= data.len() {
        start + CHUNK_SIZE
    } else {
        data.len() as int
    };
    data.subrange(start, end)
}

/// `s` followed by zeros up to length `n`.
pub open spec fn zero_filled(s: Seq<u8>, n: nat) -> Seq<u8> {
    s + Seq::new((n - s.len()) as nat, |i: int| 0u8)
}

/// The reports libusb sends: each chunk, zero-filled to `CHUNK_SIZE` bytes.
pub open spec fn libusb_reports(data: Seq<u8>) -> Seq<Seq<u8>> {
    Seq::new(chunk_count(data.len()), |i: int| zero_filled(chunk_at(data, i), CHUNK_SIZE as nat))
}

/// The reports hidapi sends: report id 0, then each chunk zero-filled to `CHUNK_SIZE` bytes.
pub open spec fn hidapi_reports(data: Seq<u8>) -> Seq<Seq<u8>> {
    Seq::new(
        chunk_count(data.len()),
        |i: int| seq![0u8] + zero_filled(chunk_at(data, i), CHUNK_SIZE as nat),
    )
}

/// Number of zero bytes that bring `len` to a multiple of `CHUNK_SIZE`.
pub open spec fn padding_len(len: nat) -> nat {
    ((CHUNK_SIZE - len % (CHUNK_SIZE as nat)) % (CHUNK_SIZE as int)) as nat
}

/// `data` followed by zeros up to a multiple of `CHUNK_SIZE` bytes.
pub open spec fn padded(data: Seq<u8>) -> Seq<u8> {
    data + Seq::new(padding_len(data.len()), |i: int| 0u8)
}

/// The byte sequences one after the other.
pub open spec fn concat_all(parts: Seq<Seq<u8>>) -> Seq<u8>
    decreases parts.len(),
{
    if parts.len() == 0 {
        Seq::empty()
    } else {
        concat_all(parts.drop_last()) + parts.last()
    }
}

/// Padding keeps the payload as a prefix and adds fewer than `CHUNK_SIZE`
/// zeros, reaching a multiple of `CHUNK_SIZE`.
pub proof fn lemma_padded(data: Seq<u8>)
    ensures
        padded(data).len() % (CHUNK_SIZE as nat) == 0,
        data.len() <= padded(data).len() < data.len() + CHUNK_SIZE,
        padded(data).take(data.len() as int) == data,
        forall|i: int| data.len() <= i < padded(data).len() ==> padded(data)[i] == 0,
{
    let len = data.len() as int;
    let r = len % 64;
    assert(0 <= r < 64);
    if r == 0 {
        assert(padding_len(data.len()) == 0);
    } else {
        assert(padding_len(data.len()) == 64 - r);
        assert((len + (64 - r)) % 64 == 0) by (nonlinear_arith)
            requires
                r == len % 64,
                0 < r < 64,
                len >= 0,
        ;
    }
    assert(padded(data).take(len) =~= data);
}

proof fn lemma_reassemble_prefix(data: Seq<u8>, k: int)
    requires
        data.len() % (CHUNK_SIZE as nat) == 0,
        0 <= k <= data.len() / (CHUNK_SIZE as nat),
    ensures
        concat_all(libusb_reports(data).take(k)) == data.take(k * CHUNK_SIZE),
    decreases k,
{
    let len = data.len() as int;
    let n = len / 64;
    assert(chunk_count(data.len()) == n) by (nonlinear_arith)
        requires
            len % 64 == 0,
            len >= 0,
            n == len / 64,
            chunk_count(data.len()) == (len + 63) / 64,
    ;
    if k == 0 {
        assert(libusb_reports(data).take(0) =~= Seq::<Seq<u8>>::empty());
        assert(data.take(0) =~= Seq::<u8>::empty());
    } else {
        lemma_reassemble_prefix(data, k - 1);
        let reports = libusb_reports(data);
        assert(reports.take(k).drop_last() =~= reports.take(k - 1));
        assert(k * 64 <= len) by (nonlinear_arith)
            requires
                k <= n,
                n == len / 64,
                len >= 0,
        ;
        assert((k - 1) * 64 + 64 == k * 64);
        let chunk = chunk_at(data, k - 1);
        assert(chunk =~= data.subrange((k - 1) * 64, k * 64));
        assert(zero_filled(chunk, 64) =~= chunk);
        assert(reports.take(k).last() == reports[k - 1]);
        assert(data.take(k * 64) =~= data.take((k - 1) * 64) + chunk);
    }
}

/// The libusb reports of a payload of whole chunks, put back together,
/// give the payload; each hidapi report is report id 0 followed by the
/// libusb report.
pub proof fn lemma_reports_reassemble(data: Seq<u8>)
    requires
        data.len() % (CHUNK_SIZE as nat) == 0,
    ensures
        concat_all(libusb_reports(data)) == data,
        hidapi_reports(data).len() == libusb_reports(data).len(),
        forall|i: int|
            0 <= i < hidapi_reports(data).len() ==> #[trigger] hidapi_reports(data)[i] == seq![0u8]
                + libusb_reports(data)[i],
{
    let len = data.len() as int;
    let n = len / 64;
    assert(chunk_count(data.len()) == n) by (nonlinear_arith)
        requires
            len % 64 == 0,
            len >= 0,
            n == len / 64,
            chunk_count(data.len()) == (len + 63) / 64,
    ;
    lemma_reassemble_prefix(data, n);
    assert(libusb_reports(data).take(n) =~= libusb_reports(data));
    assert(n * 64 == len) by (nonlinear_arith)
        requires
            len % 64 == 0,
            n == len / 64,
    ;
    assert(data.take(len) =~= data);
}

/// The `bus:address` id of a libusb device.
pub open spec fn bus_address_id(bus: u8, address: u8) -> Seq<char> {
    decimal(bus as nat) + seq![':'] + decimal(address as nat)
}

/// What parsing `bus:address` gives.
pub open spec fn parse_device_id(id: Seq<char>) -> Result<(u8, u8), UsbError> {
    match first_index(id, ':') {
        None => Err(UsbError::InvalidDeviceId),
        Some(j) => if first_index(id.skip(j + 1), ':') is Some {
            Err(UsbError::InvalidDeviceId)
        } else {
            match parse_u8_spec(id.take(j)) {
                None => Err(UsbError::InvalidBus),
                Some(bus) => match parse_u8_spec(id.skip(j + 1)) {
                    None => Err(UsbError::InvalidAddress),
                    Some(address) => Ok((bus, address)),
                },
            }
        },
    }
}

/// The paths of the badges among HID devices, in listing order.
pub open spec fn hid_badge_ids(entries: Seq<UsbDeviceEntry>) -> Seq<Seq<char>>
    decreases entries.len(),
{
    if entries.len() == 0 {
        Seq::empty()
    } else {
        let prev = hid_badge_ids(entries.drop_last());
        let e = entries.last();
        if is_badge(e.ids) && e.path is Some {
            prev.push(e.path.unwrap()@)
        } else {
            prev
        }
    }
}

/// The `bus:address` ids of the badges among libusb devices, in listing order.
pub open spec fn usb_badge_ids(entries: Seq<UsbDeviceEntry>) -> Seq<Seq<char>>
    decreases entries.len(),
{
    if entries.len() == 0 {
        Seq::empty()
    } else {
        let prev = usb_badge_ids(entries.drop_last());
        let e = entries.last();
        if is_badge(e.ids) {
            prev.push(bus_address_id(e.bus, e.address))
        } else {
            prev
        }
    }
}

/// The entry is the badge a write to `target` (or to any badge) goes to.
pub open spec fn entry_selected(e: UsbDeviceEntry, target: Option<(u8, u8)>) -> bool {
    &&& is_badge(e.ids)
    &&& match target {
        Some((bus, address)) => e.bus == bus && e.address == address,
        None => true,
    }
}

/// The views of a vector of strings.
pub open spec fn string_views(v: Seq<String>) -> Seq<Seq<char>> {
    v.map_values(|s: String| s@)
}

/// The views of a vector of byte vectors.
pub open spec fn byte_views(v: Seq<Vec<u8>>) -> Seq<Seq<u8>> {
    v.map_values(|b: Vec<u8>| b@)
}

/// A USB library the badge can be driven through.
pub trait Backend {
    /// Name of the backend.
    fn name(&self) -> &'static str;

    /// The reports that carry `data` to the badge, one transfer each.
    fn reports(&self, data: &[u8]) -> Vec<Vec<u8>>;
}

/// The hidapi backend.
pub struct HidapiBackend;

/// The libusb backend (through rusb).
pub struct RusbBackend;

/// Copies chunk `i` of `data` into a zero-filled report, after `offset` leading zero bytes.
fn chunk_report(data: &[u8], i: usize, offset: usize) -> (report: Vec<u8>)
    requires
        i < chunk_count(data@.len()),
        offset <= 1,
    ensures
        report@ == Seq::new(offset as nat, |k: int| 0u8) + zero_filled(
            chunk_at(data@, i as int),
            CHUNK_SIZE as nat,
        ),
{
    let size = CHUNK_SIZE + offset;
    let len = data.len();
    assert(i * CHUNK_SIZE < data@.len()) by (nonlinear_arith)
        requires
            i < (data@.len() + (CHUNK_SIZE - 1)) as nat / (CHUNK_SIZE as nat),
    ;
    let start = i * CHUNK_SIZE;
    let mut report: Vec<u8> = Vec::new();
    let ghost expected = Seq::new(offset as nat, |k: int| 0u8) + zero_filled(
        chunk_at(data@, i as int),
        CHUNK_SIZE as nat,
    );
    assert(expected.len() == size);
    let mut k: usize = 0;
    while k < size
        invariant
            size == CHUNK_SIZE + offset,
            offset <= 1,
            start == i * CHUNK_SIZE,
            start < data@.len(),
            k <= size,
            expected.len() == size,
            expected == Seq::new(offset as nat, |k: int| 0u8) + zero_filled(
                chunk_at(data@, i as int),
                CHUNK_SIZE as nat,
            ),
            report@ == expected.take(k as int),
        decreases size - k,
    {
        let b = if k >= offset && start + (k - offset) < data.len() {
            data[start + (k - offset)]
        } else {
            0u8
        };
        assert(b == expected[k as int]);
        report.push(b);
        assert(expected.take(k + 1) =~= expected.take(k as int).push(b));
        k = k + 1;
    }
    assert(expected.take(size as int) =~= expected);
    report
}

/// All reports of `data`, each with `offset` leading zero bytes.
fn all_reports(data: &[u8], offset: usize) -> (reports: Vec<Vec<u8>>)
    requires
        offset <= 1,
    ensures
        byte_views(reports@) == Seq::new(
            chunk_count(data@.len()),
            |i: int|
                Seq::new(offset as nat, |k: int| 0u8) + zero_filled(
                    chunk_at(data@, i),
                    CHUNK_SIZE as nat,
                ),
        ),
{
    let count = data.len() / CHUNK_SIZE + if data.len() % CHUNK_SIZE == 0 {
        0
    } else {
        1
    };
    assert(count == chunk_count(data@.len()));
    let ghost expected = Seq::new(
        chunk_count(data@.len()),
        |i: int|
            Seq::new(offset as nat, |k: int| 0u8) + zero_filled(chunk_at(data@, i), CHUNK_SIZE as nat),
    );
    let mut reports: Vec<Vec<u8>> = Vec::new();
    let mut i: usize = 0;
    while i < count
        invariant
            offset <= 1,
            count == chunk_count(data@.len()),
            i <= count,
            expected.len() == count,
            expected == Seq::new(
                chunk_count(data@.len()),
                |i: int|
                    Seq::new(offset as nat, |k: int| 0u8) + zero_filled(
                        chunk_at(data@, i),
                        CHUNK_SIZE as nat,
                    ),
            ),
            byte_views(reports@) == expected.take(i as int),
        decreases count - i,
    {
        let report = chunk_report(data, i, offset);
        let ghost before = reports@;
        reports.push(report);
        proof {
            assert(byte_views(reports@) =~= byte_views(before).push(report@));
            assert(expected.take(i + 1) =~= expected.take(i as int).push(expected[i as int]));
        }
        i = i + 1;
    }
    assert(expected.take(count as int) =~= expected);
    reports
}

impl Backend for HidapiBackend {
    fn name(&self) -> (n: &'static str)
        ensures
            n@ == "hidapi"@,
    {
        "hidapi"
    }

    fn reports(&self, data: &[u8]) -> (reports: Vec<Vec<u8>>)
        ensures
            byte_views(reports@) == hidapi_reports(data@),
    {
        let reports = all_reports(data, 1);
        proof {
            assert forall|i: int| 0 <= i < chunk_count(data@.len()) implies Seq::new(
                1nat,
                |k: int| 0u8,
            ) + zero_filled(chunk_at(data@, i), CHUNK_SIZE as nat) =~= seq![0u8] + zero_filled(
                chunk_at(data@, i),
                CHUNK_SIZE as nat,
            ) by {}
            assert(byte_views(reports@) =~= hidapi_reports(data@));
        }
        reports
    }
}

impl Backend for RusbBackend {
    fn name(&self) -> (n: &'static str)
        ensures
            n@ == "libusb"@,
    {
        "libusb"
    }

    fn reports(&self, data: &[u8]) -> (reports: Vec<Vec<u8>>)
        ensures
            byte_views(reports@) == libusb_reports(data@),
    {
        let reports = all_reports(data, 0);
        proof {
            assert forall|i: int| 0 <= i < chunk_count(data@.len()) implies Seq::new(
                0nat,
                |k: int| 0u8,
            ) + zero_filled(chunk_at(data@, i), CHUNK_SIZE as nat) =~= zero_filled(
                chunk_at(data@, i),
                CHUNK_SIZE as nat,
            ) by {}
            assert(byte_views(reports@) =~= libusb_reports(data@));
        }
        reports
    }
}

/// Splits a `bus:address` device id into its two numbers.
pub fn parse_bus_address(id: &str) -> (r: Result<(u8, u8), UsbError>)
    ensures
        match (r, parse_device_id(id@)) {
            (Ok(x), Ok(y)) => x == y,
            (Err(UsbError::InvalidDeviceId), Err(UsbError::InvalidDeviceId)) => true,
            (Err(UsbError::InvalidBus), Err(UsbError::InvalidBus)) => true,
            (Err(UsbError::InvalidAddress), Err(UsbError::InvalidAddress)) => true,
            _ => false,
        },
{
    let chars = str_chars(id);
    let n = chars.len();
    let mut j: usize = 0;
    while j < n && chars[j] != ':'
        invariant
            j <= n,
            n == chars@.len(),
            forall|k: int| 0 <= k < j ==> chars@[k] != ':',
        decreases n - j,
    {
        j = j + 1;
    }
    if j == n {
        proof {
            lemma_no_index(id@, ':');
        }
        return Err(UsbError::InvalidDeviceId);
    }
    proof {
        lemma_first_index(id@, ':', j as int);
    }
    let mut k: usize = j + 1;
    while k < n && chars[k] != ':'
        invariant
            j < k <= n,
            n == chars@.len(),
            forall|m: int| j < m < k ==> chars@[m] != ':',
        decreases n - k,
    {
        k = k + 1;
    }
    let ghost after = id@.skip(j + 1);
    if k < n {
        proof {
            assert(after[k - j - 1] == ':');
            assert(crate::text::first_at(after, ':', k - j - 1));
            lemma_first_index(after, ':', k - j - 1);
        }
        return Err(UsbError::InvalidDeviceId);
    }
    proof {
        assert forall|m: int| 0 <= m < after.len() implies after[m] != ':' by {
            assert(after[m] == chars@[j + 1 + m]);
        }
        lemma_no_index(after, ':');
    }
    let bus_chars = sub_chars(&chars, 0, j);
    let bus = parse_u8(bus_chars.as_slice());
    proof {
        assert(chars@.subrange(0, j as int) =~= id@.take(j as int));
    }
    match bus {
        None => Err(UsbError::InvalidBus),
        Some(bus) => {
            let address_chars = sub_chars(&chars, j + 1, n);
            let address = parse_u8(address_chars.as_slice());
            proof {
                assert(chars@.subrange(j + 1, n as int) =~= after);
            }
            match address {
                None => Err(UsbError::InvalidAddress),
                Some(address) => Ok((bus, address)),
            }
        },
    }
}

/// Picks the entry a write goes to: the first badge at `target`, or the
/// first badge at all when no target is given.
pub fn select_device(entries: &Vec<UsbDeviceEntry>, target: &Option<DeviceTarget>) -> (r: Result<
    usize,
    UsbError,
>)
    ensures
        match r {
            Ok(i) => {
                &&& i < entries@.len()
                &&& entry_selected(entries@[i as int], target_ids(*target))
                &&& forall|k: int|
                    0 <= k < i ==> !entry_selected(entries@[k], target_ids(*target))
            },
            Err(e) => {
                &&& forall|k: int|
                    0 <= k < entries@.len() ==> !entry_selected(entries@[k], target_ids(*target))
                &&& match target {
                    Some(t) => e matches UsbError::DeviceNotFound(id) && id@ == t.id@,
                    None => e matches UsbError::NoBadge,
                }
            },
        },
{
    let n = entries.len();
    let mut i: usize = 0;
    while i < n
        invariant
            i <= n,
            n == entries@.len(),
            forall|k: int| 0 <= k < i ==> !entry_selected(entries@[k], target_ids(*target)),
        decreases n - i,
    {
        let e = &entries[i];
        let badge = match e.ids {
            Some((v, p)) => v == VENDOR_ID && p == PRODUCT_ID,
            None => false,
        };
        let here = match target {
            Some(t) => e.bus == t.bus && e.address == t.address,
            None => true,
        };
        if badge && here {
            return Ok(i);
        }
        i = i + 1;
    }
    match target {
        Some(t) => Err(UsbError::DeviceNotFound(t.id.clone())),
        None => Err(UsbError::NoBadge),
    }
}

/// The bus and address a target names.
pub open spec fn target_ids(target: Option<DeviceTarget>) -> Option<(u8, u8)> {
    match target {
        Some(t) => Some((t.bus, t.address)),
        None => None,
    }
}

/// The view of an optional string slice.
pub open spec fn opt_str_view(s: Option<&str>) -> Option<Seq<char>> {
    match s {
        Some(s) => Some(s@),
        None => None,
    }
}

/// What `prepare_write` gives for a connection, device id and payload.
pub open spec fn write_outcome(
    conn: &UsbConnection,
    device_id: Option<Seq<char>>,
    data: Seq<u8>,
    r: Result<WriteRequest, UsbError>,
) -> bool {
    if data.len() > MAX_PAYLOAD_SIZE {
        r matches Err(UsbError::DataTooLarge(len)) && len == data.len()
    } else if conn.is_hidapi() {
        r matches Ok(req) && req.target is None && byte_views(req.reports@) == hidapi_reports(
            padded(data),
        )
    } else {
        match device_id {
            None => r matches Ok(req) && req.target is None && byte_views(req.reports@)
                == libusb_reports(padded(data)),
            Some(id) => match (r, parse_device_id(id)) {
                (Ok(req), Ok((bus, address))) => req.target matches Some(t) && t.bus == bus
                    && t.address == address && t.id@ == id && byte_views(req.reports@)
                    == libusb_reports(padded(data)),
                (Err(UsbError::InvalidDeviceId), Err(UsbError::InvalidDeviceId)) => true,
                (Err(UsbError::InvalidBus), Err(UsbError::InvalidBus)) => true,
                (Err(UsbError::InvalidAddress), Err(UsbError::InvalidAddress)) => true,
                _ => false,
            },
        }
    }
}

/// The id that `find_devices` gives a libusb badge reads back, through
/// `parse_bus_address`, as that badge's bus and address.
pub proof fn lemma_bus_address_roundtrip(bus: u8, address: u8)
    ensures
        parse_device_id(bus_address_id(bus, address)) == Ok::<(u8, u8), UsbError>((bus, address)),
{
    let b = decimal(bus as nat);
    let a = decimal(address as nat);
    let id = bus_address_id(bus, address);
    crate::text::lemma_decimal_digits(bus as nat);
    crate::text::lemma_decimal_digits(address as nat);
    crate::text::lemma_parse_decimal_u8(bus);
    crate::text::lemma_parse_decimal_u8(address);
    let j = b.len() as int;
    assert forall|k: int| 0 <= k < j implies id[k] != ':' by {
        assert(id[k] == b[k]);
        assert(crate::text::is_digit(b[k]));
    }
    assert(id[j] == ':');
    lemma_first_index(id, ':', j);
    assert(id.take(j) =~= b);
    assert(id.skip(j + 1) =~= a);
    assert forall|k: int| 0 <= k < a.len() implies a[k] != ':' by {
        assert(crate::text::is_digit(a[k]));
    }
    lemma_no_index(a, ':');
}

/// The address of the first OUT endpoint among `(address, is_out)` pairs.
pub fn first_out_endpoint(endpoints: &Vec<(u8, bool)>) -> (r: Option<u8>)
    ensures
        r is None <==> forall|k: int| 0 <= k < endpoints@.len() ==> !endpoints@[k].1,
        r matches Some(a) ==> exists|i: int|
            0 <= i < endpoints@.len() && endpoints@[i].1 && endpoints@[i].0 == a && forall|k: int|
                0 <= k < i ==> !endpoints@[k].1,
{
    let n = endpoints.len();
    let mut i: usize = 0;
    while i < n
        invariant
            i <= n,
            n == endpoints@.len(),
            forall|k: int| 0 <= k < i ==> !endpoints@[k].1,
        decreases n - i,
    {
        let (address, is_out) = endpoints[i];
        if is_out {
            assert(endpoints@[i as int].1 && endpoints@[i as int].0 == address);
            return Some(address);
        }
        i = i + 1;
    }
    None
}

/// USB connection with selectable backend.
pub enum UsbConnection {
    Hidapi(HidapiBackend),
    Libusb(RusbBackend),
}

impl UsbConnection {
    /// Whether the connection goes through hidapi.
    pub open spec fn is_hidapi(&self) -> bool {
        *self matches UsbConnection::Hidapi(_)
    }

    /// Creates a connection with the preferred backend, hidapi.
    pub fn new() -> (r: Result<Self, UsbError>)
        ensures
            r matches Ok(c) && c.is_hidapi(),
    {
        Ok(UsbConnection::Hidapi(HidapiBackend))
    }

    /// Creates a connection with the named backend: `auto` or `hidapi` for
    /// hidapi, `libusb` or `rusb` for libusb.
    pub fn with_backend(backend: &str) -> (r: Result<Self, UsbError>)
        ensures
            backend@ == "auto"@ || backend@ == "hidapi"@ ==> (r matches Ok(c) && c.is_hidapi()),
            backend@ == "libusb"@ || backend@ == "rusb"@ ==> (r matches Ok(c) && !c.is_hidapi()),
            !(backend@ == "auto"@ || backend@ == "hidapi"@ || backend@ == "libusb"@ || backend@
                == "rusb"@) ==> (r matches Err(UsbError::UnknownBackend(name)) && name@ == backend@),
    {
        proof {
            reveal_strlit("auto");
            reveal_strlit("hidapi");
            reveal_strlit("libusb");
            reveal_strlit("rusb");
            assert("rusb"@[0] != "auto"@[0] && "rusb"@[0] != "hidapi"@[0]);
            assert("libusb"@[0] != "auto"@[0] && "libusb"@[0] != "hidapi"@[0]);
        }
        if str_eq(backend, "auto") || str_eq(backend, "hidapi") {
            Ok(UsbConnection::Hidapi(HidapiBackend))
        } else if str_eq(backend, "libusb") || str_eq(backend, "rusb") {
            Ok(UsbConnection::Libusb(RusbBackend))
        } else {
            Err(UsbError::UnknownBackend(backend.to_owned()))
        }
    }

    /// Name of the backend in use.
    pub fn backend_name(&self) -> (name: &'static str)
        ensures
            self.is_hidapi() ==> name@ == "hidapi"@,
            !self.is_hidapi() ==> name@ == "libusb"@,
    {
        match self {
            UsbConnection::Hidapi(b) => b.name(),
            UsbConnection::Libusb(b) => b.name(),
        }
    }

    /// The ids of the badges among the listed devices: HID device paths
    /// for hidapi, `bus:address` for libusb. With libusb, a device whose
    /// descriptor could not be read fails the listing.
    pub fn find_devices(&self, entries: &Vec<UsbDeviceEntry>) -> (r: Result<Vec<String>, UsbError>)
        ensures
            self.is_hidapi() ==> (r matches Ok(ids) && string_views(ids@) == hid_badge_ids(
                entries@,
            )),
            !self.is_hidapi() && (exists|k: int| 0 <= k < entries@.len() && entries@[k].ids is None)
                ==> r matches Err(UsbError::DescriptorUnavailable),
            !self.is_hidapi() && (forall|k: int| 0 <= k < entries@.len() ==> entries@[k].ids is Some)
                ==> (r matches Ok(ids) && string_views(ids@) == usb_badge_ids(entries@)),
    {
        let n = entries.len();
        let mut ids: Vec<String> = Vec::new();
        let mut i: usize = 0;
        while i < n
            invariant
                i <= n,
                n == entries@.len(),
                self.is_hidapi() ==> string_views(ids@) == hid_badge_ids(entries@.take(i as int)),
                !self.is_hidapi() ==> string_views(ids@) == usb_badge_ids(entries@.take(i as int)),
                !self.is_hidapi() ==> forall|k: int| 0 <= k < i ==> entries@[k].ids is Some,
            decreases n - i,
        {
            let e = &entries[i];
            let ghost before = ids@;
            proof {
                assert(entries@.take(i + 1).drop_last() =~= entries@.take(i as int));
                assert(entries@.take(i + 1).last() == entries@[i as int]);
            }
            match self {
                UsbConnection::Hidapi(_) => {
                    let badge = match e.ids {
                        Some((v, p)) => v == VENDOR_ID && p == PRODUCT_ID,
                        None => false,
                    };
                    if badge {
                        match &e.path {
                            Some(path) => {
                                ids.push(path.clone());
                                assert(string_views(ids@) =~= string_views(before).push(path@));
                            },
                            None => {},
                        }
                    }
                },
                UsbConnection::Libusb(_) => {
                    match e.ids {
                        None => {
                            return Err(UsbError::DescriptorUnavailable);
                        },
                        Some((v, p)) => {
                            if v == VENDOR_ID && p == PRODUCT_ID {
                                let mut id = String::new();
                                push_decimal(&mut id, e.bus as u64);
                                id.push(':');
                                push_decimal(&mut id, e.address as u64);
                                ids.push(id);
                                assert(id@ =~= bus_address_id(e.bus, e.address));
                                assert(string_views(ids@) =~= string_views(before).push(id@));
                            }
                        },
                    }
                },
            }
            i = i + 1;
        }
        assert(entries@.take(n as int) =~= entries@);
        Ok(ids)
    }

    /// Checks and frames a write of `data` to the badge: refuses payloads
    /// over `MAX_PAYLOAD_SIZE` bytes, pads to whole chunks with zeros, reads
    /// the `bus:address` device id (libusb only; hidapi writes to the first
    /// badge) and builds the reports of the backend.
    pub fn prepare_write(&self, device_id: Option<&str>, data: &[u8]) -> (r: Result<
        WriteRequest,
        UsbError,
    >)
        ensures
            write_outcome(self, opt_str_view(device_id), data@, r),
    {
        if data.len() > MAX_PAYLOAD_SIZE {
            return Err(UsbError::DataTooLarge(data.len()));
        }
        let mut payload: Vec<u8> = Vec::new();
        payload.extend_from_slice(data);
        let padding = (CHUNK_SIZE - (data.len() % CHUNK_SIZE)) % CHUNK_SIZE;
        let mut k: usize = 0;
        while k < padding
            invariant
                k <= padding,
                padding == padding_len(data@.len()),
                payload@ == data@ + Seq::new(k as nat, |i: int| 0u8),
            decreases padding - k,
        {
            payload.push(0u8);
            assert(payload@ =~= data@ + Seq::new((k + 1) as nat, |i: int| 0u8));
            k = k + 1;
        }
        assert(payload@ =~= padded(data@));
        match self {
            UsbConnection::Hidapi(b) => {
                let reports = b.reports(payload.as_slice());
                Ok(WriteRequest { target: None, reports })
            },
            UsbConnection::Libusb(b) => {
                let target = match device_id {
                    Some(id) => {
                        match parse_bus_address(id) {
                            Ok((bus, address)) => Some(DeviceTarget { bus, address, id: id.to_owned() }),
                            Err(e) => {
                                return Err(e);
                            },
                        }
                    },
                    None => None,
                };
                let reports = b.reports(payload.as_slice());
                Ok(WriteRequest { target, reports })
            },
        }
    }
}

} // verus!
