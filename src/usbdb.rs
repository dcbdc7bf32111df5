use vstd::prelude::*;

use crate::hex::{all_hex, hex4, hex_to_u16, invalid_data, utf8_string};
use crate::meminfo::{trim, trim_ascii};
use crate::system::{first_index_of, find_byte, NamedUsbDevice};
use vstd::utf8::{decode_utf8, encode_utf8, valid_utf8};

verus! {

/// A found device as plain values: vendor ID, device ID, name, vendor name.
pub type FoundView = (u16, u16, Seq<char>, Seq<char>);

/// The mathematical content of a [`UsbIdsQuery`].
pub struct UsbQueryModel {
    pub queries: Seq<(u16, u16)>,
    /// The vendor whose devices the following indented lines list, if any.
    pub vendor: Option<(u16, Seq<char>)>,
    pub found: Seq<FoundView>,
}

/// `line` up to its first `#`.
pub open spec fn strip_comment(line: Seq<u8>) -> Seq<u8> {
    match first_index_of(line, 35) {
        Some(i) => line.subrange(0, i as int),
        None => line,
    }
}

/// How many tabs `s` starts with.
pub open spec fn leading_tabs(s: Seq<u8>) -> nat
    decreases s.len(),
{
    if s.len() > 0 && s[0] == 9 {
        1 + leading_tabs(s.drop_first())
    } else {
        0
    }
}

/// The ID that the first four bytes of `s` spell in hexadecimal, if they do.
pub open spec fn leading_id(s: Seq<u8>) -> Option<u16> {
    if s.len() >= 4 && all_hex(s.subrange(0, 4)) {
        Some(hex4(s.subrange(0, 4)) as u16)
    } else {
        None
    }
}

/// The text after the ID, trimmed.
pub open spec fn rest_text(s: Seq<u8>) -> Seq<u8> {
    trim(s.subrange(4, s.len() as int))
}

pub open spec fn wants_vendor(queries: Seq<(u16, u16)>, vid: u16) -> bool {
    exists|i: int| 0 <= i < queries.len() && (#[trigger] queries[i]).0 == vid
}

/// A text as characters where it is valid UTF-8.
pub open spec fn decoded(bytes: Seq<u8>) -> Option<Seq<char>> {
    if valid_utf8(bytes) {
        Some(decode_utf8(bytes))
    } else {
        None
    }
}

impl UsbQueryModel {
    /// One line of the database: the next model, and whether to go on reading, or
    /// `None` where a name is not valid UTF-8. Reading stops once every query is
    /// answered. A line indented by one tab names a device of the current vendor;
    /// any other line names a vendor.
    pub open spec fn feed(self, line: Seq<u8>) -> (UsbQueryModel, Option<bool>) {
        if self.found.len() == self.queries.len() {
            (self, Some(false))
        } else {
            let l = strip_comment(line);
            if l.len() == 0 {
                (self, Some(true))
            } else {
                let indented = self.vendor is Some && leading_tabs(l) == 1;
                let m = if indented { self } else { UsbQueryModel { vendor: None, ..self } };
                let l = if indented { l.subrange(1, l.len() as int) } else { l };
                match m.vendor {
                    None => match leading_id(l) {
                        Some(vid) if wants_vendor(m.queries, vid) => match decoded(rest_text(l)) {
                            Some(name) => (UsbQueryModel { vendor: Some((vid, name)), ..m }, Some(true)),
                            None => (m, None),
                        },
                        _ => (m, Some(true)),
                    },
                    Some((vid, vendor_name)) => match leading_id(l) {
                        Some(did) if m.queries.contains((vid, did)) => match decoded(rest_text(l)) {
                            Some(name) => (
                                UsbQueryModel { found: m.found.push((vid, did, name, vendor_name)), ..m },
                                Some(true),
                            ),
                            None => (m, None),
                        },
                        _ => (m, Some(true)),
                    },
                }
            }
        }
    }
}

/// A lookup of USB devices by ID in the `usb.ids` database, fed line by line.
pub struct UsbIdsQuery {
    queries: Vec<(u16, u16)>,
    vendor: Option<(u16, String)>,
    found: Vec<NamedUsbDevice>,
}

pub open spec fn found_view(d: NamedUsbDevice) -> FoundView {
    (d.vid, d.did, d.name@, d.vendor@)
}

impl View for UsbIdsQuery {
    type V = UsbQueryModel;

    closed spec fn view(&self) -> UsbQueryModel {
        UsbQueryModel {
            queries: self.queries@,
            vendor: match &self.vendor {
                Some((vid, name)) => Some((*vid, name@)),
                None => None,
            },
            found: self.found@.map_values(|d: NamedUsbDevice| found_view(d)),
        }
    }
}

proof fn lemma_decoded(bytes: Seq<u8>, s: Seq<char>)
    requires
        encode_utf8(s) == bytes,
    ensures
        valid_utf8(bytes),
        decoded(bytes) == Some(s),
{
    vstd::utf8::encode_utf8_valid_utf8(s);
    vstd::utf8::encode_utf8_decode_utf8(s);
}

proof fn lemma_one_tab(l: Seq<u8>)
    requires
        l.len() > 0,
    ensures
        (leading_tabs(l) == 1) == (l[0] == 9 && !(l.len() > 1 && l[1] == 9)),
{
    if l[0] == 9 {
        let rest = l.drop_first();
        if rest.len() > 0 && rest[0] == 9 {
            assert(leading_tabs(rest) >= 1);
        } else {
            assert(leading_tabs(rest) == 0);
        }
    }
}

fn wants_vendor_exec(queries: &Vec<(u16, u16)>, vid: u16) -> (r: bool)
    ensures
        r == wants_vendor(queries@, vid),
{
    let mut i: usize = 0;
    while i < queries.len()
        invariant
            i <= queries@.len(),
            forall|k: int| 0 <= k < i ==> (#[trigger] queries@[k]).0 != vid,
        decreases queries@.len() - i,
    {
        if queries[i].0 == vid {
            return true;
        }
        i = i + 1;
    }
    false
}

fn wants_device(queries: &Vec<(u16, u16)>, vid: u16, did: u16) -> (r: bool)
    ensures
        r == queries@.contains((vid, did)),
{
    let mut i: usize = 0;
    while i < queries.len()
        invariant
            i <= queries@.len(),
            forall|k: int| 0 <= k < i ==> #[trigger] queries@[k] != (vid, did),
        decreases queries@.len() - i,
    {
        if queries[i].0 == vid && queries[i].1 == did {
            assert(queries@[i as int] == (vid, did));
            return true;
        }
        i = i + 1;
    }
    false
}

/// The ID in the first four bytes of `l`, if they are hexadecimal digits.
fn read_id(l: &[u8]) -> (r: Option<u16>)
    ensures
        r == leading_id(l@),
{
    if l.len() < 4 {
        return None;
    }
    let digits: [u8; 4] = [l[0], l[1], l[2], l[3]];
    proof {
        assert(digits@ =~= l@.subrange(0, 4));
    }
    hex_to_u16(&digits)
}

impl UsbIdsQuery {
    /// A lookup of the devices `queries`, as pairs of vendor and device ID.
    pub fn new(queries: Vec<(u16, u16)>) -> (r: Self)
        ensures
            r@ == (UsbQueryModel { queries: queries@, vendor: None, found: Seq::empty() }),
    {
        let r = UsbIdsQuery { queries, vendor: None, found: Vec::new() };
        proof {
            assert(r@.found =~= Seq::<FoundView>::empty());
        }
        r
    }

    /// Takes one line of the database; `Ok(false)` once every query is answered,
    /// an `InvalidData` error where a name is not valid UTF-8.
    pub fn feed_line(&mut self, line: &[u8]) -> (r: Result<bool, std::io::Error>)
        ensures
            final(self)@ == old(self)@.feed(line@).0,
            match old(self)@.feed(line@).1 {
                Some(go_on) => r matches Ok(b) && b == go_on,
                None => r is Err,
            },
    {
        let ghost start = self@;
        if self.found.len() == self.queries.len() {
            return Ok(false);
        }
        let l = match find_byte(line, 35) {
            Some(i) => vstd::slice::slice_subrange(line, 0, i),
            None => line,
        };
        if l.len() == 0 {
            return Ok(true);
        }
        let indented = self.vendor.is_some() && l[0] == 9 && !(l.len() > 1 && l[1] == 9);
        proof {
            lemma_one_tab(l@);
        }
        let l = if indented {
            vstd::slice::slice_subrange(l, 1, l.len())
        } else {
            self.vendor = None;
            l
        };
        let ghost m = self@;
        match &self.vendor {
            None => {
                let vid = match read_id(l) {
                    Some(vid) => vid,
                    None => {
                        return Ok(true);
                    },
                };
                if !wants_vendor_exec(&self.queries, vid) {
                    return Ok(true);
                }
                let text = trim_ascii(vstd::slice::slice_subrange(l, 4, l.len()));
                match utf8_string(text) {
                    Some(name) => {
                        proof {
                            lemma_decoded(text@, name@);
                        }
                        self.vendor = Some((vid, name));
                        Ok(true)
                    },
                    None => Err(invalid_data("Vendor name is not valid UTF-8")),
                }
            },
            Some((vid, vendor_name)) => {
                let vid = *vid;
                let did = match read_id(l) {
                    Some(did) => did,
                    None => {
                        return Ok(true);
                    },
                };
                if !wants_device(&self.queries, vid, did) {
                    return Ok(true);
                }
                let text = trim_ascii(vstd::slice::slice_subrange(l, 4, l.len()));
                match utf8_string(text) {
                    Some(name) => {
                        proof {
                            lemma_decoded(text@, name@);
                        }
                        let vendor = vendor_name.clone();
                        let device = NamedUsbDevice { vid, did, name, vendor };
                        self.found.push(device);
                        proof {
                            assert(self@.found =~= m.found.push((vid, did, name@, vendor@)));
                        }
                        Ok(true)
                    },
                    None => Err(invalid_data("Device name is not valid UTF-8")),
                }
            },
        }
    }

    /// The devices found so far, in the order of the database.
    pub fn into_found(self) -> (r: Vec<NamedUsbDevice>)
        ensures
            r@.map_values(|d: NamedUsbDevice| found_view(d)) == self@.found,
    {
        self.found
    }
}

/// Feeds `lines` one by one until one says to stop: the last model, and whether
/// every name read was valid UTF-8.
pub open spec fn feed_lines(m: UsbQueryModel, lines: Seq<Seq<u8>>) -> (UsbQueryModel, bool)
    decreases lines.len(),
{
    if lines.len() == 0 {
        (m, true)
    } else {
        let (next, go_on) = m.feed(lines[0]);
        match go_on {
            Some(true) => feed_lines(next, lines.drop_first()),
            Some(false) => (next, true),
            None => (next, false),
        }
    }
}

pub open spec fn line_views(lines: Seq<Vec<u8>>) -> Seq<Seq<u8>> {
    lines.map_values(|l: Vec<u8>| l@)
}

/// The names of the USB devices `queries` (vendor and device ID) in the lines of
/// the `usb.ids` database, in the database's order; reading stops once every
/// query is answered.
pub fn query_usb_devices(queries: Vec<(u16, u16)>, db_lines: &Vec<Vec<u8>>) -> (r: Result<
    Vec<NamedUsbDevice>,
    std::io::Error,
>)
    ensures
        ({
            let (m, ok) = feed_lines(
                UsbQueryModel { queries: queries@, vendor: None, found: Seq::empty() },
                line_views(db_lines@),
            );
            &&& ok ==> (r matches Ok(found) && found@.map_values(|d: NamedUsbDevice| found_view(d)) == m.found)
            &&& !ok ==> r is Err
        }),
{
    let ghost all = line_views(db_lines@);
    let ghost initial = UsbQueryModel { queries: queries@, vendor: None, found: Seq::empty() };
    let mut query = UsbIdsQuery::new(queries);
    let mut i: usize = 0;
    proof {
        assert(all.subrange(0, all.len() as int) =~= all);
    }
    while i < db_lines.len()
        invariant
            i <= db_lines@.len(),
            all == line_views(db_lines@),
            all.len() == db_lines@.len(),
            initial == (UsbQueryModel { queries: queries@, vendor: None, found: Seq::empty() }),
            feed_lines(initial, all) == feed_lines(query@, all.subrange(i as int, all.len() as int)),
        decreases db_lines@.len() - i,
    {
        let ghost before = query@;
        let ghost rest = all.subrange(i as int, all.len() as int);
        proof {
            assert(rest[0] == db_lines@[i as int]@);
            assert(rest.drop_first() =~= all.subrange(i + 1, all.len() as int));
        }
        match query.feed_line(db_lines[i].as_slice()) {
            Ok(true) => {
                proof {
                    assert(feed_lines(before, rest) == feed_lines(query@, rest.drop_first()));
                }
            },
            Ok(false) => {
                proof {
                    assert(feed_lines(before, rest) == (query@, true));
                }
                return Ok(query.into_found());
            },
            Err(e) => {
                proof {
                    assert(feed_lines(before, rest).1 == false);
                }
                return Err(e);
            },
        }
        i = i + 1;
    }
    proof {
        assert(all.subrange(i as int, all.len() as int) =~= Seq::<Seq<u8>>::empty());
    }
    Ok(query.into_found())
}

} // verus!
