use vstd::prelude::*;

use crate::parse::{
    attrs_view, find_attr, get_attr, parse_items, parse_tree, parse_u64, spec_records_from,
    spec_tree_attrs, spec_u64, Attr, AttrV, ParseError,
};
use crate::text::{ascii_bytes, append_bytes, bytes_eq, lit_bytes, push_lit};

verus! {

/// One transfer record of an upload invocation: progress percentage, file
/// name, transfer type, transfer rate and the cumulative byte counter.
#[derive(PartialEq, Eq, Debug)]
pub struct Transfer {
    pub percentage: Vec<u8>,
    pub file_name: Vec<u8>,
    pub type_: Vec<u8>,
    pub rate: Vec<u8>,
    pub total_size: u64,
}

pub ghost struct TransferV {
    pub percentage: Seq<u8>,
    pub file_name: Seq<u8>,
    pub type_: Seq<u8>,
    pub rate: Seq<u8>,
    pub total_size: u64,
}

impl View for Transfer {
    type V = TransferV;

    open spec fn view(&self) -> TransferV {
        TransferV {
            percentage: self.percentage@,
            file_name: self.file_name@,
            type_: self.type_@,
            rate: self.rate@,
            total_size: self.total_size,
        }
    }
}

pub open spec fn transfers_view(s: Seq<Transfer>) -> Seq<TransferV> {
    s.map_values(|t: Transfer| t@)
}

/// The transfer record held by one attribute list: all five fields must be
/// there and the cumulative counter must be a decimal number.
pub open spec fn spec_transfer(attrs: Seq<AttrV>) -> Option<TransferV> {
    match (
        find_attr(attrs, ascii_bytes("per"@)),
        find_attr(attrs, ascii_bytes("fname"@)),
        find_attr(attrs, ascii_bytes("trf_type"@)),
        find_attr(attrs, ascii_bytes("rate_trf"@)),
        find_attr(attrs, ascii_bytes("tottrf_sz"@)),
    ) {
        (
            Option::Some(per),
            Option::Some(fname),
            Option::Some(ty),
            Option::Some(rate),
            Option::Some(sz),
        ) => match spec_u64(sz) {
            Option::Some(n) => Option::Some(
                TransferV {
                    percentage: per,
                    file_name: fname,
                    type_: ty,
                    rate: rate,
                    total_size: n,
                },
            ),
            Option::None => Option::None,
        },
        _ => Option::None,
    }
}

/// Whether one of the five transfer fields is missing from the attribute
/// list.
pub open spec fn transfer_field_missing(attrs: Seq<AttrV>) -> bool {
    find_attr(attrs, ascii_bytes("per"@)) is None || find_attr(attrs, ascii_bytes("fname"@))
        is None || find_attr(attrs, ascii_bytes("trf_type"@)) is None || find_attr(
        attrs,
        ascii_bytes("rate_trf"@),
    ) is None || find_attr(attrs, ascii_bytes("tottrf_sz"@)) is None
}

/// Reads one decoded record as a transfer record.
pub fn transfer_from_attrs(attrs: &Vec<Attr>) -> (r: Result<Transfer, ParseError>)
    ensures
        match r {
            Result::Ok(t) => spec_transfer(attrs_view(attrs@)) == Option::Some(t@),
            Result::Err(e) => spec_transfer(attrs_view(attrs@)) is None && (e
                == ParseError::MissingField <==> transfer_field_missing(attrs_view(attrs@))) && (e
                == ParseError::MissingField || e == ParseError::BadNumber),
        },
{
    proof {
        reveal_strlit("per");
        reveal_strlit("fname");
        reveal_strlit("trf_type");
        reveal_strlit("rate_trf");
        reveal_strlit("tottrf_sz");
    }
    let per = get_attr(attrs, &lit_bytes("per"));
    let fname = get_attr(attrs, &lit_bytes("fname"));
    let ty = get_attr(attrs, &lit_bytes("trf_type"));
    let rate = get_attr(attrs, &lit_bytes("rate_trf"));
    let sz = get_attr(attrs, &lit_bytes("tottrf_sz"));
    match (per, fname, ty, rate, sz) {
        (
            Option::Some(per),
            Option::Some(fname),
            Option::Some(ty),
            Option::Some(rate),
            Option::Some(sz),
        ) => {
            match parse_u64(&sz) {
                Result::Ok(n) => Result::Ok(
                    Transfer {
                        percentage: per,
                        file_name: fname,
                        type_: ty,
                        rate: rate,
                        total_size: n,
                    },
                ),
                Result::Err(e) => Result::Err(e),
            }
        },
        _ => Result::Err(ParseError::MissingField),
    }
}

/// One deletion record: the count of deleted items, when the record carries
/// one.
#[derive(PartialEq, Eq, Debug)]
pub struct Operation {
    pub items_deleted: Option<u64>,
}

/// The deletion record held by one attribute list: the count field may be
/// absent, but when present it must be a decimal number.
pub open spec fn spec_operation(attrs: Seq<AttrV>) -> Option<Option<u64>> {
    match find_attr(attrs, ascii_bytes("tot_items_deleted"@)) {
        Option::None => Option::Some(Option::None),
        Option::Some(v) => match spec_u64(v) {
            Option::Some(n) => Option::Some(Option::Some(n)),
            Option::None => Option::None,
        },
    }
}

/// Reads one decoded record as a deletion record.
pub fn operation_from_attrs(attrs: &Vec<Attr>) -> (r: Result<Operation, ParseError>)
    ensures
        match r {
            Result::Ok(op) => spec_operation(attrs_view(attrs@)) == Option::Some(op.items_deleted),
            Result::Err(e) => spec_operation(attrs_view(attrs@)) is None && e
                == ParseError::BadNumber,
        },
{
    proof {
        reveal_strlit("tot_items_deleted");
    }
    match get_attr(attrs, &lit_bytes("tot_items_deleted")) {
        Option::None => Result::Ok(Operation { items_deleted: Option::None }),
        Option::Some(v) => match parse_u64(&v) {
            Result::Ok(n) => Result::Ok(Operation { items_deleted: Option::Some(n) }),
            Result::Err(e) => Result::Err(e),
        },
    }
}

/// One entry of a remote directory listing.
#[derive(PartialEq, Eq, Debug)]
pub struct ListEntry {
    pub name: Vec<u8>,
    pub is_dir: bool,
}

pub ghost struct ListEntryV {
    pub name: Seq<u8>,
    pub is_dir: bool,
}

impl View for ListEntry {
    type V = ListEntryV;

    open spec fn view(&self) -> ListEntryV {
        ListEntryV { name: self.name@, is_dir: self.is_dir }
    }
}

pub open spec fn entries_view(s: Seq<ListEntry>) -> Seq<ListEntryV> {
    s.map_values(|e: ListEntry| e@)
}

/// The resource held by one listing record: a one-byte type code and a name.
pub open spec fn spec_resource(attrs: Seq<AttrV>) -> Option<(u8, Seq<u8>)> {
    match (find_attr(attrs, ascii_bytes("restype"@)), find_attr(attrs, ascii_bytes("fname"@))) {
        (Option::Some(t), Option::Some(name)) => if t.len() == 1 {
            Option::Some((t[0], name))
        } else {
            Option::None
        },
        _ => Option::None,
    }
}

/// The type code of a directory resource.
pub const DIR_CODE: u8 = 68;

/// The type code of a file resource.
pub const FILE_CODE: u8 = 70;

/// The directory and file entries of a decoded listing, read from record
/// `i` on: a `D` record is a directory, an `F` record a file, and a record
/// of any other code is dropped; a record that is no resource at all makes
/// the whole listing undefined.
pub open spec fn spec_listing_from(rs: Seq<Seq<AttrV>>, i: int) -> Option<Seq<ListEntryV>>
    decreases rs.len() - i,
        when 0 <= i
{
    if i >= rs.len() {
        Option::Some(Seq::empty())
    } else {
        match spec_resource(rs[i]) {
            Option::None => Option::None,
            Option::Some((t, name)) => {
                let rest = spec_listing_from(rs, i + 1);
                if t == DIR_CODE {
                    crate::parse::opt_prepend(seq![ListEntryV { name, is_dir: true }], rest)
                } else if t == FILE_CODE {
                    crate::parse::opt_prepend(seq![ListEntryV { name, is_dir: false }], rest)
                } else {
                    rest
                }
            },
        }
    }
}

/// The type codes that a listing drops, read from record `i` on.
pub open spec fn spec_skipped_from(rs: Seq<Seq<AttrV>>, i: int) -> Seq<u8>
    decreases rs.len() - i,
        when 0 <= i
{
    if i >= rs.len() {
        Seq::empty()
    } else {
        let rest = spec_skipped_from(rs, i + 1);
        match spec_resource(rs[i]) {
            Option::None => rest,
            Option::Some((t, name)) => {
                if t == DIR_CODE || t == FILE_CODE {
                    rest
                } else {
                    seq![t] + rest
                }
            },
        }
    }
}

/// The listing held by a whole output text.
pub open spec fn spec_listing(s: Seq<u8>) -> Option<Seq<ListEntryV>> {
    match spec_records_from(s, 0) {
        Option::None => Option::None,
        Option::Some(rs) => spec_listing_from(rs, 0),
    }
}

/// What is wrong with the first bad record of a decoded listing, if any: a
/// record without both resource fields lacks a field, one whose type code
/// is not a single byte is malformed.
pub open spec fn spec_listing_err(rs: Seq<Seq<AttrV>>, i: int) -> Option<ParseError>
    decreases rs.len() - i,
        when 0 <= i
{
    if i >= rs.len() {
        Option::None
    } else {
        match (find_attr(rs[i], ascii_bytes("restype"@)), find_attr(rs[i], ascii_bytes("fname"@))) {
            (Option::Some(t), Option::Some(name)) => if t.len() == 1 {
                spec_listing_err(rs, i + 1)
            } else {
                Option::Some(ParseError::Malformed)
            },
            _ => Option::Some(ParseError::MissingField),
        }
    }
}

/// Decodes the output of a list-mode invocation into directory and file
/// entries, dropping entries of unknown type code; the dropped codes come
/// back beside the entries so that the caller can log them.
pub fn list_dir(output: &Vec<u8>) -> (r: Result<(Vec<ListEntry>, Vec<u8>), ParseError>)
    ensures
        match r {
            Result::Ok(p) => spec_listing(output@) == Option::Some(entries_view(p.0@))
                && match spec_records_from(output@, 0) {
                Option::Some(rs) => p.1@ == spec_skipped_from(rs, 0),
                Option::None => false,
            },
            Result::Err(e) => spec_listing(output@) is None && match spec_records_from(
                output@,
                0,
            ) {
                Option::None => e == ParseError::Malformed,
                Option::Some(rs) => spec_listing_err(rs, 0) == Option::Some(e),
            },
        },
{
    proof {
        reveal_strlit("restype");
        reveal_strlit("fname");
    }
    let items = match parse_items(output) {
        Result::Ok(items) => items,
        Result::Err(e) => {
            return Result::Err(e);
        },
    };
    let ghost rs = crate::parse::items_view(items@);
    let restype_name = lit_bytes("restype");
    let fname_name = lit_bytes("fname");
    let mut entries: Vec<ListEntry> = Vec::new();
    let mut skipped: Vec<u8> = Vec::new();
    let mut i: usize = 0;
    proof {
        assert(entries_view(entries@) =~= Seq::<ListEntryV>::empty());
        match spec_listing_from(rs, 0) {
            Option::Some(t) => {
                assert(entries_view(entries@) + t =~= t);
            },
            Option::None => {},
        }
        assert(skipped@ + spec_skipped_from(rs, 0) =~= spec_skipped_from(rs, 0));
    }
    while i < items.len()
        invariant
            i <= items@.len(),
            rs == crate::parse::items_view(items@),
            spec_records_from(output@, 0) == Option::Some(rs),
            restype_name@ == ascii_bytes("restype"@),
            fname_name@ == ascii_bytes("fname"@),
            spec_listing_from(rs, 0) == crate::parse::opt_prepend(
                entries_view(entries@),
                spec_listing_from(rs, i as int),
            ),
            spec_skipped_from(rs, 0) == skipped@ + spec_skipped_from(rs, i as int),
            spec_listing_err(rs, 0) == spec_listing_err(rs, i as int),
        decreases items@.len() - i,
    {
        let attrs = &items[i];
        proof {
            assert(rs[i as int] == attrs_view(attrs@));
        }
        let t = get_attr(attrs, &restype_name);
        let name = get_attr(attrs, &fname_name);
        match (t, name) {
            (Option::Some(t), Option::Some(name)) => {
                if t.len() != 1 {
                    return Result::Err(ParseError::Malformed);
                }
                let code = t[0];
                let ghost entries0 = entries@;
                let ghost skipped0 = skipped@;
                if code == DIR_CODE {
                    entries.push(ListEntry { name, is_dir: true });
                    proof {
                        assert(entries_view(entries@) =~= entries_view(entries0) + seq![
                            ListEntryV { name: name@, is_dir: true },
                        ]);
                        match spec_listing_from(rs, i + 1) {
                            Option::Some(rest) => {
                                assert(entries_view(entries0) + (seq![
                                    ListEntryV { name: name@, is_dir: true },
                                ] + rest) =~= entries_view(entries@) + rest);
                            },
                            Option::None => {},
                        }
                    }
                } else if code == FILE_CODE {
                    entries.push(ListEntry { name, is_dir: false });
                    proof {
                        assert(entries_view(entries@) =~= entries_view(entries0) + seq![
                            ListEntryV { name: name@, is_dir: false },
                        ]);
                        match spec_listing_from(rs, i + 1) {
                            Option::Some(rest) => {
                                assert(entries_view(entries0) + (seq![
                                    ListEntryV { name: name@, is_dir: false },
                                ] + rest) =~= entries_view(entries@) + rest);
                            },
                            Option::None => {},
                        }
                    }
                } else {
                    skipped.push(code);
                    proof {
                        assert(skipped@ =~= skipped0 + seq![code]);
                        assert(skipped0 + (seq![code] + spec_skipped_from(rs, i + 1)) =~= skipped@
                            + spec_skipped_from(rs, i + 1));
                    }
                }
            },
            _ => {
                return Result::Err(ParseError::MissingField);
            },
        }
        i = i + 1;
    }
    proof {
        assert(entries_view(entries@) + Seq::<ListEntryV>::empty() =~= entries_view(entries@));
        assert(skipped@ + Seq::<u8>::empty() =~= skipped@);
    }
    Result::Ok((entries, skipped))
}

/// The server address held by a status reply: the value of the
/// `cmdUtilityServerIP` attribute of its tree line.
pub open spec fn spec_server_ip(s: Seq<u8>) -> Option<Seq<u8>> {
    match spec_tree_attrs(s) {
        Option::None => Option::None,
        Option::Some(attrs) => find_attr(attrs, ascii_bytes("cmdUtilityServerIP"@)),
    }
}

/// Reads the server address out of the reply to an address query.
pub fn get_server_ip(output: &Vec<u8>) -> (r: Result<Vec<u8>, ParseError>)
    ensures
        match r {
            Result::Ok(ip) => spec_server_ip(output@) == Option::Some(ip@),
            Result::Err(e) => spec_server_ip(output@) is None && (e == ParseError::MissingField
                <==> spec_tree_attrs(output@) is Some) && (e == ParseError::TreeMissing <==>
                crate::parse::find_pat(output@, ascii_bytes("<tree"@), 0) == output@.len()),
        },
{
    proof {
        reveal_strlit("cmdUtilityServerIP");
    }
    let attrs = match parse_tree(output) {
        Result::Ok(attrs) => attrs,
        Result::Err(e) => {
            return Result::Err(e);
        },
    };
    match get_attr(&attrs, &lit_bytes("cmdUtilityServerIP")) {
        Option::Some(ip) => Result::Ok(ip),
        Option::None => Result::Err(ParseError::MissingField),
    }
}

/// The used and total quota held by a status reply: the `usedquota` and
/// `totalquota` attributes of its tree line, both decimal byte counts.
pub open spec fn spec_quota(s: Seq<u8>) -> Option<(u64, u64)> {
    match spec_tree_attrs(s) {
        Option::None => Option::None,
        Option::Some(attrs) => match (
            find_attr(attrs, ascii_bytes("usedquota"@)),
            find_attr(attrs, ascii_bytes("totalquota"@)),
        ) {
            (Option::Some(u), Option::Some(t)) => match (spec_u64(u), spec_u64(t)) {
                (Option::Some(u), Option::Some(t)) => Option::Some((u, t)),
                _ => Option::None,
            },
            _ => Option::None,
        },
    }
}

/// Reads the used and total quota out of the reply to a quota query.
pub fn get_quota(output: &Vec<u8>) -> (r: Result<(u64, u64), ParseError>)
    ensures
        match r {
            Result::Ok(q) => spec_quota(output@) == Option::Some(q),
            Result::Err(e) => spec_quota(output@) is None && (e == ParseError::MissingField
                <==> spec_tree_attrs(output@) is Some && (find_attr(
                spec_tree_attrs(output@).unwrap(),
                ascii_bytes("usedquota"@),
            ) is None || find_attr(
                spec_tree_attrs(output@).unwrap(),
                ascii_bytes("totalquota"@),
            ) is None)) && (e == ParseError::TreeMissing <==> crate::parse::find_pat(
                output@,
                ascii_bytes("<tree"@),
                0,
            ) == output@.len()) && (e == ParseError::BadNumber <==> spec_tree_attrs(output@)
                is Some && match (
                find_attr(spec_tree_attrs(output@).unwrap(), ascii_bytes("usedquota"@)),
                find_attr(spec_tree_attrs(output@).unwrap(), ascii_bytes("totalquota"@)),
            ) {
                (Option::Some(u), Option::Some(t)) => spec_u64(u) is None || spec_u64(t) is None,
                _ => false,
            }),
        },
{
    proof {
        reveal_strlit("usedquota");
        reveal_strlit("totalquota");
    }
    let attrs = match parse_tree(output) {
        Result::Ok(attrs) => attrs,
        Result::Err(e) => {
            return Result::Err(e);
        },
    };
    let used = match get_attr(&attrs, &lit_bytes("usedquota")) {
        Option::Some(u) => u,
        Option::None => {
            return Result::Err(ParseError::MissingField);
        },
    };
    let total = match get_attr(&attrs, &lit_bytes("totalquota")) {
        Option::Some(t) => t,
        Option::None => {
            return Result::Err(ParseError::MissingField);
        },
    };
    let used = match parse_u64(&used) {
        Result::Ok(n) => n,
        Result::Err(e) => {
            return Result::Err(e);
        },
    };
    let total = match parse_u64(&total) {
        Result::Ok(n) => n,
        Result::Err(e) => {
            return Result::Err(e);
        },
    };
    Result::Ok((used, total))
}

/// A failure of the device lookup: either the device list could not be
/// decoded, or no listed device carries the configured name.
#[derive(Clone, Copy, PartialEq, Eq, Debug)]
pub enum DeviceError {
    Parse(ParseError),
    NotFound,
}

/// The device record held by one attribute list: its identifier and its
/// nickname.
pub open spec fn spec_device(attrs: Seq<AttrV>) -> Option<(Seq<u8>, Seq<u8>)> {
    match (
        find_attr(attrs, ascii_bytes("device_id"@)),
        find_attr(attrs, ascii_bytes("nick_name"@)),
    ) {
        (Option::Some(id), Option::Some(nick)) => Option::Some((id, nick)),
        _ => Option::None,
    }
}

/// The devices held by a decoded record stream, read from record `i` on;
/// every record must be a device record.
pub open spec fn spec_devices_from(rs: Seq<Seq<AttrV>>, i: int) -> Option<Seq<(Seq<u8>, Seq<u8>)>>
    decreases rs.len() - i,
        when 0 <= i
{
    if i >= rs.len() {
        Option::Some(Seq::empty())
    } else {
        match spec_device(rs[i]) {
            Option::None => Option::None,
            Option::Some(d) => crate::parse::opt_prepend(seq![d], spec_devices_from(rs, i + 1)),
        }
    }
}

/// What is wrong with the first bad record of a device list, if any: every
/// record must carry both device fields.
pub open spec fn spec_devices_err(rs: Seq<Seq<AttrV>>, i: int) -> Option<ParseError>
    decreases rs.len() - i,
        when 0 <= i
{
    if i >= rs.len() {
        Option::None
    } else if spec_device(rs[i]) is Some {
        spec_devices_err(rs, i + 1)
    } else {
        Option::Some(ParseError::MissingField)
    }
}

/// The identifier of the first device carrying `name`, read from `i` on.
pub open spec fn spec_find_device(devs: Seq<(Seq<u8>, Seq<u8>)>, name: Seq<u8>, i: int) -> Option<
    Seq<u8>,
>
    decreases devs.len() - i,
        when 0 <= i
{
    if i >= devs.len() {
        Option::None
    } else if devs[i].1 == name {
        Option::Some(devs[i].0)
    } else {
        spec_find_device(devs, name, i + 1)
    }
}

/// The archive-side device identifier derived from a device-list reply: the
/// identifier of the device whose nickname is the configured device name,
/// wrapped in the fixed affixes that the transfer executable expects.
pub open spec fn spec_device_id(s: Seq<u8>, name: Seq<u8>) -> Option<Seq<u8>> {
    match spec_records_from(s, 0) {
        Option::None => Option::None,
        Option::Some(rs) => match spec_devices_from(rs, 0) {
            Option::None => Option::None,
            Option::Some(devs) => match spec_find_device(devs, name, 0) {
                Option::None => Option::None,
                Option::Some(id) => Option::Some(
                    ascii_bytes("5c0b"@) + id + ascii_bytes("4b5z"@),
                ),
            },
        },
    }
}

/// Reads the device identifier of the configured device name out of the
/// reply to a device-list query.
pub fn get_device_id(output: &Vec<u8>, device_name: &Vec<u8>) -> (r: Result<Vec<u8>, DeviceError>)
    ensures
        match r {
            Result::Ok(id) => spec_device_id(output@, device_name@) == Option::Some(id@),
            Result::Err(e) => spec_device_id(output@, device_name@) is None && match e {
                DeviceError::NotFound => match spec_records_from(output@, 0) {
                    Option::Some(rs) => spec_devices_from(rs, 0) is Some,
                    Option::None => false,
                },
                DeviceError::Parse(p) => match spec_records_from(output@, 0) {
                    Option::None => p == ParseError::Malformed,
                    Option::Some(rs) => spec_devices_err(rs, 0) == Option::Some(p),
                },
            },
        },
{
    proof {
        reveal_strlit("device_id");
        reveal_strlit("nick_name");
        reveal_strlit("5c0b");
        reveal_strlit("4b5z");
    }
    let items = match parse_items(output) {
        Result::Ok(items) => items,
        Result::Err(e) => {
            return Result::Err(DeviceError::Parse(e));
        },
    };
    let ghost rs = crate::parse::items_view(items@);
    let id_name = lit_bytes("device_id");
    let nick_name = lit_bytes("nick_name");
    let mut devices: Vec<(Vec<u8>, Vec<u8>)> = Vec::new();
    let ghost devs_whole: Seq<(Seq<u8>, Seq<u8>)> = Seq::empty();
    let mut i: usize = 0;
    proof {
        match spec_devices_from(rs, 0) {
            Option::Some(t) => {
                assert(pairs_view(devices@) + t =~= t);
            },
            Option::None => {},
        }
        assert(pairs_view(devices@) =~= Seq::<(Seq<u8>, Seq<u8>)>::empty());
    }
    while i < items.len()
        invariant
            i <= items@.len(),
            rs == crate::parse::items_view(items@),
            spec_records_from(output@, 0) == Option::Some(rs),
            id_name@ == ascii_bytes("device_id"@),
            nick_name@ == ascii_bytes("nick_name"@),
            spec_devices_from(rs, 0) == crate::parse::opt_prepend(
                pairs_view(devices@),
                spec_devices_from(rs, i as int),
            ),
            spec_devices_err(rs, 0) == spec_devices_err(rs, i as int),
        decreases items@.len() - i,
    {
        let attrs = &items[i];
        proof {
            assert(rs[i as int] == attrs_view(attrs@));
        }
        let id = get_attr(attrs, &id_name);
        let nick = get_attr(attrs, &nick_name);
        match (id, nick) {
            (Option::Some(id), Option::Some(nick)) => {
                let ghost devices0 = devices@;
                let ghost d = (id@, nick@);
                devices.push((id, nick));
                proof {
                    assert(pairs_view(devices@) =~= pairs_view(devices0) + seq![d]);
                    match spec_devices_from(rs, i + 1) {
                        Option::Some(rest) => {
                            assert(pairs_view(devices0) + (seq![d] + rest) =~= pairs_view(devices@)
                                + rest);
                        },
                        Option::None => {},
                    }
                }
            },
            _ => {
                return Result::Err(DeviceError::Parse(ParseError::MissingField));
            },
        }
        i = i + 1;
    }
    proof {
        assert(pairs_view(devices@) + Seq::<(Seq<u8>, Seq<u8>)>::empty() =~= pairs_view(devices@));
    }
    let ghost devs = pairs_view(devices@);
    let mut j: usize = 0;
    while j < devices.len()
        invariant
            j <= devices@.len(),
            devs == pairs_view(devices@),
            spec_records_from(output@, 0) == Option::Some(rs),
            rs == crate::parse::items_view(items@),
            spec_devices_from(rs, 0) == Option::Some(devs),
            spec_find_device(devs, device_name@, 0) == spec_find_device(
                devs,
                device_name@,
                j as int,
            ),
        decreases devices@.len() - j,
    {
        proof {
            reveal_strlit("5c0b");
            reveal_strlit("4b5z");
        }
        if bytes_eq(&devices[j].1, device_name) {
            let mut id: Vec<u8> = Vec::new();
            push_lit(&mut id, "5c0b");
            append_bytes(&mut id, &devices[j].0);
            push_lit(&mut id, "4b5z");
            return Result::Ok(id);
        }
        j = j + 1;
    }
    Result::Err(DeviceError::NotFound)
}

pub open spec fn pairs_view(s: Seq<(Vec<u8>, Vec<u8>)>) -> Seq<(Seq<u8>, Seq<u8>)> {
    s.map_values(|p: (Vec<u8>, Vec<u8>)| (p.0@, p.1@))
}

/// The cumulative byte counters of a decoded record stream, read from
/// record `i` on; every record must carry a decimal counter.
pub open spec fn spec_sizes_from(rs: Seq<Seq<AttrV>>, i: int) -> Option<Seq<u64>>
    decreases rs.len() - i,
        when 0 <= i
{
    if i >= rs.len() {
        Option::Some(Seq::empty())
    } else {
        match find_attr(rs[i], ascii_bytes("tottrf_sz"@)) {
            Option::None => Option::None,
            Option::Some(v) => match spec_u64(v) {
                Option::None => Option::None,
                Option::Some(n) => crate::parse::opt_prepend(
                    seq![n],
                    spec_sizes_from(rs, i + 1),
                ),
            },
        }
    }
}

/// What is wrong with the first bad record of a restore stream, if any:
/// every record must carry the cumulative counter, as a decimal number.
pub open spec fn spec_sizes_err(rs: Seq<Seq<AttrV>>, i: int) -> Option<ParseError>
    decreases rs.len() - i,
        when 0 <= i
{
    if i >= rs.len() {
        Option::None
    } else {
        match find_attr(rs[i], ascii_bytes("tottrf_sz"@)) {
            Option::None => Option::Some(ParseError::MissingField),
            Option::Some(v) => match spec_u64(v) {
                Option::None => Option::Some(ParseError::BadNumber),
                Option::Some(n) => spec_sizes_err(rs, i + 1),
            },
        }
    }
}

/// The largest of the counters from `i` on, or zero when none remain.
pub open spec fn max_from(s: Seq<u64>, i: int) -> u64
    decreases s.len() - i,
        when 0 <= i
{
    if i >= s.len() {
        0
    } else {
        let m = max_from(s, i + 1);
        if s[i] >= m {
            s[i]
        } else {
            m
        }
    }
}

proof fn lemma_max_push(s: Seq<u64>, x: u64, i: int)
    requires
        0 <= i <= s.len(),
    ensures
        max_from(s.push(x), i) == if max_from(s, i) >= x {
            max_from(s, i)
        } else {
            x
        },
    decreases s.len() - i,
{
    if i < s.len() {
        assert(s.push(x)[i] == s[i]);
        lemma_max_push(s, x, i + 1);
    } else {
        assert(s.push(x)[i] == x);
        assert(max_from(s.push(x), i + 1) == 0);
        assert(max_from(s, i) == 0);
    }
}

/// Reads a restore invocation's output and reports the total bytes moved:
/// the largest cumulative counter any record carries, or zero when the
/// output holds no records at all.
pub fn restore_total_size(output: &Vec<u8>) -> (r: Result<u64, ParseError>)
    ensures
        match r {
            Result::Ok(n) => match spec_records_from(output@, 0) {
                Option::Some(rs) => match spec_sizes_from(rs, 0) {
                    Option::Some(sizes) => n == max_from(sizes, 0),
                    Option::None => false,
                },
                Option::None => false,
            },
            Result::Err(e) => match spec_records_from(output@, 0) {
                Option::None => e == ParseError::Malformed,
                Option::Some(rs) => spec_sizes_from(rs, 0) is None && spec_sizes_err(rs, 0)
                    == Option::Some(e),
            },
        },
{
    proof {
        reveal_strlit("tottrf_sz");
    }
    let items = match parse_items(output) {
        Result::Ok(items) => items,
        Result::Err(e) => {
            return Result::Err(e);
        },
    };
    let ghost rs = crate::parse::items_view(items@);
    let sz_name = lit_bytes("tottrf_sz");
    let mut best: u64 = 0;
    let ghost mut sizes: Seq<u64> = Seq::empty();
    let mut i: usize = 0;
    proof {
        match spec_sizes_from(rs, 0) {
            Option::Some(t) => {
                assert(sizes + t =~= t);
            },
            Option::None => {},
        }
    }
    while i < items.len()
        invariant
            i <= items@.len(),
            rs == crate::parse::items_view(items@),
            spec_records_from(output@, 0) == Option::Some(rs),
            sz_name@ == ascii_bytes("tottrf_sz"@),
            spec_sizes_from(rs, 0) == crate::parse::opt_prepend(
                sizes,
                spec_sizes_from(rs, i as int),
            ),
            spec_sizes_err(rs, 0) == spec_sizes_err(rs, i as int),
            best == max_from(sizes, 0),
        decreases items@.len() - i,
    {
        let attrs = &items[i];
        proof {
            assert(rs[i as int] == attrs_view(attrs@));
        }
        let v = match get_attr(attrs, &sz_name) {
            Option::Some(v) => v,
            Option::None => {
                return Result::Err(ParseError::MissingField);
            },
        };
        let n = match parse_u64(&v) {
            Result::Ok(n) => n,
            Result::Err(e) => {
                return Result::Err(e);
            },
        };
        proof {
            lemma_max_push(sizes, n, 0);
            match spec_sizes_from(rs, i + 1) {
                Option::Some(rest) => {
                    assert(sizes + (seq![n] + rest) =~= sizes.push(n) + rest);
                },
                Option::None => {},
            }
            sizes = sizes.push(n);
        }
        if n > best {
            best = n;
        }
        i = i + 1;
    }
    proof {
        assert(sizes + Seq::<u64>::empty() =~= sizes);
    }
    Result::Ok(best)
}

} // verus!
