//! The static table and the combined lookup over both tables.
//!
//! The static table is the fixed 99-entry list of well-known header fields
//! of QPACK Appendix A, indexed 0 to 98; it never changes. The `Table`
//! couples it with the dynamic table and resolves field lookups against
//! both.

use vstd::prelude::*;
use vstd::string::StringSliceAdditionalSpecFns;
use crate::dynamic_table::both_match;
use crate::dynamic_table::bytes_eq;
use crate::dynamic_table::name_match;
use crate::dynamic_table::DynamicTable;
use crate::dynamic_table::Entry;
use crate::types::Header;
use crate::types::HeaderString;
use crate::types::QpackError;

verus! {

/// The number of static-table entries.
pub const STATIC_TABLE_SIZE: usize = 99;

/// The `(name, value)` octets of static-table entry `i`.
pub open spec fn static_pair(i: int) -> (Seq<u8>, Seq<u8>) {
    if i == 0 {
        (":authority".spec_bytes(), "".spec_bytes())
    }     else if i == 1 {
        (":path".spec_bytes(), "/".spec_bytes())
    }     else if i == 2 {
        ("age".spec_bytes(), "0".spec_bytes())
    }     else if i == 3 {
        ("content-disposition".spec_bytes(), "".spec_bytes())
    }     else if i == 4 {
        ("content-length".spec_bytes(), "0".spec_bytes())
    }     else if i == 5 {
        ("cookie".spec_bytes(), "".spec_bytes())
    }     else if i == 6 {
        ("date".spec_bytes(), "".spec_bytes())
    }     else if i == 7 {
        ("etag".spec_bytes(), "".spec_bytes())
    }     else if i == 8 {
        ("if-modified-since".spec_bytes(), "".spec_bytes())
    }     else if i == 9 {
        ("if-none-match".spec_bytes(), "".spec_bytes())
    }     else if i == 10 {
        ("last-modified".spec_bytes(), "".spec_bytes())
    }     else if i == 11 {
        ("link".spec_bytes(), "".spec_bytes())
    }     else if i == 12 {
        ("location".spec_bytes(), "".spec_bytes())
    }     else if i == 13 {
        ("referer".spec_bytes(), "".spec_bytes())
    }     else if i == 14 {
        ("set-cookie".spec_bytes(), "".spec_bytes())
    }     else if i == 15 {
        (":method".spec_bytes(), "CONNECT".spec_bytes())
    }     else if i == 16 {
        (":method".spec_bytes(), "DELETE".spec_bytes())
    }     else if i == 17 {
        (":method".spec_bytes(), "GET".spec_bytes())
    }     else if i == 18 {
        (":method".spec_bytes(), "HEAD".spec_bytes())
    }     else if i == 19 {
        (":method".spec_bytes(), "OPTIONS".spec_bytes())
    }     else if i == 20 {
        (":method".spec_bytes(), "POST".spec_bytes())
    }     else if i == 21 {
        (":method".spec_bytes(), "PUT".spec_bytes())
    }     else if i == 22 {
        (":scheme".spec_bytes(), "http".spec_bytes())
    }     else if i == 23 {
        (":scheme".spec_bytes(), "https".spec_bytes())
    }     else if i == 24 {
        (":status".spec_bytes(), "103".spec_bytes())
    }     else if i == 25 {
        (":status".spec_bytes(), "200".spec_bytes())
    }     else if i == 26 {
        (":status".spec_bytes(), "304".spec_bytes())
    }     else if i == 27 {
        (":status".spec_bytes(), "404".spec_bytes())
    }     else if i == 28 {
        (":status".spec_bytes(), "503".spec_bytes())
    }     else if i == 29 {
        ("accept".spec_bytes(), "*/*".spec_bytes())
    }     else if i == 30 {
        ("accept".spec_bytes(), "application/dns-message".spec_bytes())
    }     else if i == 31 {
        ("accept-encoding".spec_bytes(), "gzip, deflate, br".spec_bytes())
    }     else if i == 32 {
        ("accept-ranges".spec_bytes(), "bytes".spec_bytes())
    }     else if i == 33 {
        ("access-control-allow-headers".spec_bytes(), "cache-control".spec_bytes())
    }     else if i == 34 {
        ("access-control-allow-headers".spec_bytes(), "content-type".spec_bytes())
    }     else if i == 35 {
        ("access-control-allow-origin".spec_bytes(), "*".spec_bytes())
    }     else if i == 36 {
        ("cache-control".spec_bytes(), "max-age=0".spec_bytes())
    }     else if i == 37 {
        ("cache-control".spec_bytes(), "max-age=2592000".spec_bytes())
    }     else if i == 38 {
        ("cache-control".spec_bytes(), "max-age=604800".spec_bytes())
    }     else if i == 39 {
        ("cache-control".spec_bytes(), "no-cache".spec_bytes())
    }     else if i == 40 {
        ("cache-control".spec_bytes(), "no-store".spec_bytes())
    }     else if i == 41 {
        ("cache-control".spec_bytes(), "public, max-age=31536000".spec_bytes())
    }     else if i == 42 {
        ("content-encoding".spec_bytes(), "br".spec_bytes())
    }     else if i == 43 {
        ("content-encoding".spec_bytes(), "gzip".spec_bytes())
    }     else if i == 44 {
        ("content-type".spec_bytes(), "application/dns-message".spec_bytes())
    }     else if i == 45 {
        ("content-type".spec_bytes(), "application/javascript".spec_bytes())
    }     else if i == 46 {
        ("content-type".spec_bytes(), "application/json".spec_bytes())
    }     else if i == 47 {
        ("content-type".spec_bytes(), "application/x-www-form-urlencoded".spec_bytes())
    }     else if i == 48 {
        ("content-type".spec_bytes(), "image/gif".spec_bytes())
    }     else if i == 49 {
        ("content-type".spec_bytes(), "image/jpeg".spec_bytes())
    }     else if i == 50 {
        ("content-type".spec_bytes(), "image/png".spec_bytes())
    }     else if i == 51 {
        ("content-type".spec_bytes(), "text/css".spec_bytes())
    }     else if i == 52 {
        ("content-type".spec_bytes(), "text/html; charset=utf-8".spec_bytes())
    }     else if i == 53 {
        ("content-type".spec_bytes(), "text/plain".spec_bytes())
    }     else if i == 54 {
        ("content-type".spec_bytes(), "text/plain;charset=utf-8".spec_bytes())
    }     else if i == 55 {
        ("range".spec_bytes(), "bytes=0-".spec_bytes())
    }     else if i == 56 {
        ("strict-transport-security".spec_bytes(), "max-age=31536000".spec_bytes())
    }     else if i == 57 {
        ("strict-transport-security".spec_bytes(), "max-age=31536000; includesubdomains".spec_bytes())
    }     else if i == 58 {
        ("strict-transport-security".spec_bytes(), "max-age=31536000; includesubdomains; preload".spec_bytes())
    }     else if i == 59 {
        ("vary".spec_bytes(), "accept-encoding".spec_bytes())
    }     else if i == 60 {
        ("vary".spec_bytes(), "origin".spec_bytes())
    }     else if i == 61 {
        ("x-content-type-options".spec_bytes(), "nosniff".spec_bytes())
    }     else if i == 62 {
        ("x-xss-protection".spec_bytes(), "1; mode=block".spec_bytes())
    }     else if i == 63 {
        (":status".spec_bytes(), "100".spec_bytes())
    }     else if i == 64 {
        (":status".spec_bytes(), "204".spec_bytes())
    }     else if i == 65 {
        (":status".spec_bytes(), "206".spec_bytes())
    }     else if i == 66 {
        (":status".spec_bytes(), "302".spec_bytes())
    }     else if i == 67 {
        (":status".spec_bytes(), "400".spec_bytes())
    }     else if i == 68 {
        (":status".spec_bytes(), "403".spec_bytes())
    }     else if i == 69 {
        (":status".spec_bytes(), "421".spec_bytes())
    }     else if i == 70 {
        (":status".spec_bytes(), "425".spec_bytes())
    }     else if i == 71 {
        (":status".spec_bytes(), "500".spec_bytes())
    }     else if i == 72 {
        ("accept-language".spec_bytes(), "".spec_bytes())
    }     else if i == 73 {
        ("access-control-allow-credentials".spec_bytes(), "FALSE".spec_bytes())
    }     else if i == 74 {
        ("access-control-allow-credentials".spec_bytes(), "TRUE".spec_bytes())
    }     else if i == 75 {
        ("access-control-allow-headers".spec_bytes(), "*".spec_bytes())
    }     else if i == 76 {
        ("access-control-allow-methods".spec_bytes(), "get".spec_bytes())
    }     else if i == 77 {
        ("access-control-allow-methods".spec_bytes(), "get, post, options".spec_bytes())
    }     else if i == 78 {
        ("access-control-allow-methods".spec_bytes(), "options".spec_bytes())
    }     else if i == 79 {
        ("access-control-expose-headers".spec_bytes(), "content-length".spec_bytes())
    }     else if i == 80 {
        ("access-control-request-headers".spec_bytes(), "content-type".spec_bytes())
    }     else if i == 81 {
        ("access-control-request-method".spec_bytes(), "get".spec_bytes())
    }     else if i == 82 {
        ("access-control-request-method".spec_bytes(), "post".spec_bytes())
    }     else if i == 83 {
        ("alt-svc".spec_bytes(), "clear".spec_bytes())
    }     else if i == 84 {
        ("authorization".spec_bytes(), "".spec_bytes())
    }     else if i == 85 {
        ("content-security-policy".spec_bytes(), "script-src 'none'; object-src 'none'; base-uri 'none'".spec_bytes())
    }     else if i == 86 {
        ("early-data".spec_bytes(), "1".spec_bytes())
    }     else if i == 87 {
        ("expect-ct".spec_bytes(), "".spec_bytes())
    }     else if i == 88 {
        ("forwarded".spec_bytes(), "".spec_bytes())
    }     else if i == 89 {
        ("if-range".spec_bytes(), "".spec_bytes())
    }     else if i == 90 {
        ("origin".spec_bytes(), "".spec_bytes())
    }     else if i == 91 {
        ("purpose".spec_bytes(), "prefetch".spec_bytes())
    }     else if i == 92 {
        ("server".spec_bytes(), "".spec_bytes())
    }     else if i == 93 {
        ("timing-allow-origin".spec_bytes(), "*".spec_bytes())
    }     else if i == 94 {
        ("upgrade-insecure-requests".spec_bytes(), "1".spec_bytes())
    }     else if i == 95 {
        ("user-agent".spec_bytes(), "".spec_bytes())
    }     else if i == 96 {
        ("x-forwarded-for".spec_bytes(), "".spec_bytes())
    }     else if i == 97 {
        ("x-frame-options".spec_bytes(), "deny".spec_bytes())
    } else {
        ("x-frame-options".spec_bytes(), "sameorigin".spec_bytes())
    }
}

/// The static-table entry at `i`, as an insensitive literal-coded header.
#[verifier::rlimit(100)]
pub fn static_entry(i: usize) -> (h: Header)
    requires
        i < 99,
    ensures
        h.name_bytes() == static_pair(i as int).0,
        h.value_bytes() == static_pair(i as int).1,
        !h.sensitive,
        !h.name.huffman,
        !h.value.huffman,
{
    match i {
        0 => Header::from_str(":authority", ""),
        1 => Header::from_str(":path", "/"),
        2 => Header::from_str("age", "0"),
        3 => Header::from_str("content-disposition", ""),
        4 => Header::from_str("content-length", "0"),
        5 => Header::from_str("cookie", ""),
        6 => Header::from_str("date", ""),
        7 => Header::from_str("etag", ""),
        8 => Header::from_str("if-modified-since", ""),
        9 => Header::from_str("if-none-match", ""),
        10 => Header::from_str("last-modified", ""),
        11 => Header::from_str("link", ""),
        12 => Header::from_str("location", ""),
        13 => Header::from_str("referer", ""),
        14 => Header::from_str("set-cookie", ""),
        15 => Header::from_str(":method", "CONNECT"),
        16 => Header::from_str(":method", "DELETE"),
        17 => Header::from_str(":method", "GET"),
        18 => Header::from_str(":method", "HEAD"),
        19 => Header::from_str(":method", "OPTIONS"),
        20 => Header::from_str(":method", "POST"),
        21 => Header::from_str(":method", "PUT"),
        22 => Header::from_str(":scheme", "http"),
        23 => Header::from_str(":scheme", "https"),
        24 => Header::from_str(":status", "103"),
        25 => Header::from_str(":status", "200"),
        26 => Header::from_str(":status", "304"),
        27 => Header::from_str(":status", "404"),
        28 => Header::from_str(":status", "503"),
        29 => Header::from_str("accept", "*/*"),
        30 => Header::from_str("accept", "application/dns-message"),
        31 => Header::from_str("accept-encoding", "gzip, deflate, br"),
        32 => Header::from_str("accept-ranges", "bytes"),
        33 => Header::from_str("access-control-allow-headers", "cache-control"),
        34 => Header::from_str("access-control-allow-headers", "content-type"),
        35 => Header::from_str("access-control-allow-origin", "*"),
        36 => Header::from_str("cache-control", "max-age=0"),
        37 => Header::from_str("cache-control", "max-age=2592000"),
        38 => Header::from_str("cache-control", "max-age=604800"),
        39 => Header::from_str("cache-control", "no-cache"),
        40 => Header::from_str("cache-control", "no-store"),
        41 => Header::from_str("cache-control", "public, max-age=31536000"),
        42 => Header::from_str("content-encoding", "br"),
        43 => Header::from_str("content-encoding", "gzip"),
        44 => Header::from_str("content-type", "application/dns-message"),
        45 => Header::from_str("content-type", "application/javascript"),
        46 => Header::from_str("content-type", "application/json"),
        47 => Header::from_str("content-type", "application/x-www-form-urlencoded"),
        48 => Header::from_str("content-type", "image/gif"),
        49 => Header::from_str("content-type", "image/jpeg"),
        50 => Header::from_str("content-type", "image/png"),
        51 => Header::from_str("content-type", "text/css"),
        52 => Header::from_str("content-type", "text/html; charset=utf-8"),
        53 => Header::from_str("content-type", "text/plain"),
        54 => Header::from_str("content-type", "text/plain;charset=utf-8"),
        55 => Header::from_str("range", "bytes=0-"),
        56 => Header::from_str("strict-transport-security", "max-age=31536000"),
        57 => Header::from_str("strict-transport-security", "max-age=31536000; includesubdomains"),
        58 => Header::from_str("strict-transport-security", "max-age=31536000; includesubdomains; preload"),
        59 => Header::from_str("vary", "accept-encoding"),
        60 => Header::from_str("vary", "origin"),
        61 => Header::from_str("x-content-type-options", "nosniff"),
        62 => Header::from_str("x-xss-protection", "1; mode=block"),
        63 => Header::from_str(":status", "100"),
        64 => Header::from_str(":status", "204"),
        65 => Header::from_str(":status", "206"),
        66 => Header::from_str(":status", "302"),
        67 => Header::from_str(":status", "400"),
        68 => Header::from_str(":status", "403"),
        69 => Header::from_str(":status", "421"),
        70 => Header::from_str(":status", "425"),
        71 => Header::from_str(":status", "500"),
        72 => Header::from_str("accept-language", ""),
        73 => Header::from_str("access-control-allow-credentials", "FALSE"),
        74 => Header::from_str("access-control-allow-credentials", "TRUE"),
        75 => Header::from_str("access-control-allow-headers", "*"),
        76 => Header::from_str("access-control-allow-methods", "get"),
        77 => Header::from_str("access-control-allow-methods", "get, post, options"),
        78 => Header::from_str("access-control-allow-methods", "options"),
        79 => Header::from_str("access-control-expose-headers", "content-length"),
        80 => Header::from_str("access-control-request-headers", "content-type"),
        81 => Header::from_str("access-control-request-method", "get"),
        82 => Header::from_str("access-control-request-method", "post"),
        83 => Header::from_str("alt-svc", "clear"),
        84 => Header::from_str("authorization", ""),
        85 => Header::from_str("content-security-policy", "script-src 'none'; object-src 'none'; base-uri 'none'"),
        86 => Header::from_str("early-data", "1"),
        87 => Header::from_str("expect-ct", ""),
        88 => Header::from_str("forwarded", ""),
        89 => Header::from_str("if-range", ""),
        90 => Header::from_str("origin", ""),
        91 => Header::from_str("purpose", "prefetch"),
        92 => Header::from_str("server", ""),
        93 => Header::from_str("timing-allow-origin", "*"),
        94 => Header::from_str("upgrade-insecure-requests", "1"),
        95 => Header::from_str("user-agent", ""),
        96 => Header::from_str("x-forwarded-for", ""),
        97 => Header::from_str("x-frame-options", "deny"),
        _ => Header::from_str("x-frame-options", "sameorigin"),
    }
}

/// The static table holds its 99 fixed fields in order.
pub open spec fn static_wf(st: Seq<Header>) -> bool {
    &&& st.len() == 99
    &&& forall|i: int|
        0 <= i < 99 ==> {
            &&& (#[trigger] st[i]).name_bytes() == static_pair(i).0
            &&& st[i].value_bytes() == static_pair(i).1
            &&& !st[i].sensitive
            &&& !st[i].name.huffman
            &&& !st[i].value.huffman
        }
}

/// Builds the static table.
pub fn build_static_table() -> (st: Vec<Header>)
    ensures
        static_wf(st@),
{
    let mut st: Vec<Header> = Vec::new();
    let mut i: usize = 0;
    while i < 99
        invariant
            i <= 99,
            st@.len() == i,
            forall|j: int|
                0 <= j < i ==> {
                    &&& (#[trigger] st@[j]).name_bytes() == static_pair(j).0
                    &&& st@[j].value_bytes() == static_pair(j).1
                    &&& !st@[j].sensitive
                    &&& !st@[j].name.huffman
                    &&& !st@[j].value.huffman
                },
        decreases 99 - i,
    {
        st.push(static_entry(i));
        i = i + 1;
    }
    st
}

/// Whether static entry `i` carries exactly `h`'s field.
pub open spec fn static_both(i: int, h: Header) -> bool {
    static_pair(i).0 == h.name_bytes() && static_pair(i).1 == h.value_bytes()
}

/// Whether static entry `i` carries `h`'s name.
pub open spec fn static_name(i: int, h: Header) -> bool {
    static_pair(i).0 == h.name_bytes()
}

/// The static and dynamic tables of one peer.
pub struct Table {
    pub static_table: Vec<Header>,
    pub dynamic_table: DynamicTable,
}

/// The outcome of a field lookup over both tables, as `find_header` reports
/// it: `(both_matched, on_static_table, index)`, the index `usize::MAX`
/// standing for "not found". A static exact match wins; then a dynamic
/// exact match (highest absolute index); then a dynamic name match (highest
/// absolute index); then a static name match (lowest index).
pub open spec fn is_find_result(t: Table, h: Header, r: (bool, bool, usize)) -> bool {
    let (both, on_static, idx) = r;
    if both && on_static {
        &&& 0 <= idx < 99
    &&& static_both(idx as int, h)
        &&& forall|j: int| 0 <= j < idx ==> !static_both(j, h)
    } else if both {
        &&& t.dynamic_table.valid_abs(idx as int)
        &&& both_match(t.dynamic_table.entry_at(idx as int), h)
        &&& forall|a: int|
            idx < a < t.dynamic_table.insert_count ==> !both_match(
                t.dynamic_table.entry_at(a),
                h,
            )
        &&& forall|j: int| 0 <= j < 99 ==> !static_both(j, h)
    } else if on_static {
        // A static name match: nothing matched exactly and the dynamic
        // table has no entry with this name.
        &&& idx != usize::MAX
        &&& 0 <= idx < 99
        &&& static_name(idx as int, h)
        &&& forall|j: int| 0 <= j < idx ==> !static_name(j, h)
        &&& forall|j: int| 0 <= j < 99 ==> !static_both(j, h)
        &&& forall|a: int|
            t.dynamic_table.eviction_count() <= a < t.dynamic_table.insert_count
                ==> !name_match(t.dynamic_table.entry_at(a), h)
    } else if idx != usize::MAX {
        // A dynamic name match.
        &&& t.dynamic_table.valid_abs(idx as int)
        &&& name_match(t.dynamic_table.entry_at(idx as int), h)
        &&& forall|a: int|
            idx < a < t.dynamic_table.insert_count ==> !name_match(
                t.dynamic_table.entry_at(a),
                h,
            )
        &&& forall|j: int| 0 <= j < 99 ==> !static_both(j, h)
        &&& forall|a: int|
            t.dynamic_table.eviction_count() <= a < t.dynamic_table.insert_count
                ==> !both_match(t.dynamic_table.entry_at(a), h)
    } else {
        // No name match anywhere.
        &&& forall|j: int| 0 <= j < 99 ==> !static_name(j, h)
        &&& forall|a: int|
            t.dynamic_table.eviction_count() <= a < t.dynamic_table.insert_count
                ==> !name_match(t.dynamic_table.entry_at(a), h)
    }
}

impl Table {
    pub open spec fn wf(&self) -> bool {
        &&& static_wf(self.static_table@)
        &&& self.dynamic_table.wf()
    }

    pub fn new(max_capacity: usize) -> (r: Self)
        ensures
            r.wf(),
            r.dynamic_table.insert_count == 0,
            r.dynamic_table.capacity == 0,
            r.dynamic_table.current_size == 0,
            r.dynamic_table.known_received_count == 0,
            r.dynamic_table.max_capacity == max_capacity,
            r.dynamic_table.list@.len() == 0,
    {
        Table { static_table: build_static_table(), dynamic_table: DynamicTable::new(max_capacity) }
    }

    /// Looks `target` up: a static exact match first, then the dynamic
    /// table, then a static name-only match.
    pub fn find_header(&self, target: &Header) -> (r: (bool, bool, usize))
        requires
            self.wf(),
        ensures
            is_find_result(*self, *target, r),
    {
        let mut static_candidate: usize = usize::MAX;
        let mut i: usize = 0;
        while i < 99
            invariant
                self.wf(),
                i <= 99,
                forall|j: int| 0 <= j < i ==> !static_both(j, *target),
                static_candidate != usize::MAX ==> {
                    &&& static_candidate < i
                    &&& static_name(static_candidate as int, *target)
                    &&& forall|j: int| 0 <= j < static_candidate ==> !static_name(j, *target)
                },
                static_candidate == usize::MAX ==> forall|j: int|
                    0 <= j < i ==> !static_name(j, *target),
            decreases 99 - i,
        {
            if bytes_eq(&self.static_table[i].name.value, &target.name.value) {
                if bytes_eq(&self.static_table[i].value.value, &target.value.value) {
                    return (true, true, i);
                }
                if static_candidate == usize::MAX {
                    static_candidate = i;
                }
            }
            i = i + 1;
        }
        let (both, idx) = self.dynamic_table.find_index(target);
        if both {
            return (true, false, idx);
        }
        if idx == usize::MAX && static_candidate != usize::MAX {
            return (false, true, static_candidate);
        }
        (false, false, idx)
    }

    /// Looks every field of `headers` up.
    pub fn find_headers(&self, headers: &Vec<Header>) -> (r: Vec<(bool, bool, usize)>)
        requires
            self.wf(),
        ensures
            r@.len() == headers@.len(),
            forall|i: int|
                0 <= i < headers@.len() ==> is_find_result(*self, headers@[i], #[trigger] r@[i]),
    {
        let mut out: Vec<(bool, bool, usize)> = Vec::new();
        let mut i: usize = 0;
        while i < headers.len()
            invariant
                self.wf(),
                i <= headers@.len(),
                out@.len() == i,
                forall|j: int|
                    0 <= j < i ==> is_find_result(*self, headers@[j], #[trigger] out@[j]),
            decreases headers@.len() - i,
        {
            let r = self.find_header(&headers[i]);
            out.push(r);
            i = i + 1;
        }
        out
    }

    /// Whether the given fields can all be inserted now.
    pub fn is_insertable(&self, headers: &Vec<Header>) -> (r: bool)
        requires
            self.wf(),
        ensures
            r == {
                &&& crate::dynamic_table::headers_total_size(headers@)
                    <= self.dynamic_table.capacity
                &&& self.dynamic_table.can_evict_upto(
                    (self.dynamic_table.capacity - crate::dynamic_table::headers_total_size(
                        headers@,
                    )) as nat,
                )
            },
    {
        self.dynamic_table.is_insertable(headers)
    }

    /// The static-table field at `idx`; fails when `idx` is out of range.
    pub fn get_header_from_static(&self, idx: usize) -> (r: Result<Header, QpackError>)
        requires
            self.wf(),
        ensures
            match r {
                Ok(h) => {
                    &&& idx < 99
                    &&& h.name_bytes() == static_pair(idx as int).0
                    &&& h.value_bytes() == static_pair(idx as int).1
                    &&& !h.sensitive
                    &&& !h.name.huffman
                    &&& !h.value.huffman
                },
                Err(e) => {
                    &&& e == QpackError::DecompressionFailed
                    &&& idx >= 99
                },
            },
    {
        if idx >= 99 {
            return Err(QpackError::DecompressionFailed);
        }
        Ok(static_entry(idx))
    }

    /// The absolute index named by a field-block index: `base + idx` for a
    /// post-base reference, `base - idx - 1` for one relative to the base.
    /// `None` when the arithmetic leaves the index space.
    pub fn calc_abs_index(base: usize, idx: usize, post_base: bool) -> (r: Option<usize>)
        ensures
            match r {
                Some(abs) => abs == spec_abs_index(base as int, idx as int, post_base),
                None => post_base ==> base + idx > usize::MAX,
                // A relative reference below index zero never yields an
                // absolute index.
            },
            r is None ==> (if post_base {
                base + idx > usize::MAX
            } else {
                idx >= base
            }),
            !post_base && idx < base ==> r == Some((base - idx - 1) as usize),
            post_base && base + idx <= usize::MAX ==> r == Some((base + idx) as usize),
    {
        if post_base {
            base.checked_add(idx)
        } else {
            if idx >= base {
                None
            } else {
                Some(base - idx - 1)
            }
        }
    }

    /// The dynamic-table field named by a field-block index; fails when the
    /// reference leaves the table.
    pub fn get_header_from_dynamic(&self, base: usize, idx: usize, post_base: bool) -> (r: Result<
        Header,
        QpackError,
    >)
        requires
            self.wf(),
        ensures
            match r {
                Ok(h) => {
                    &&& self.dynamic_table.valid_abs(
                        spec_abs_index(base as int, idx as int, post_base),
                    )
                    &&& h.name_bytes() == self.dynamic_table.entry_at(
                        spec_abs_index(base as int, idx as int, post_base),
                    ).name@
                    &&& h.value_bytes() == self.dynamic_table.entry_at(
                        spec_abs_index(base as int, idx as int, post_base),
                    ).value@
                    &&& !h.sensitive
                    &&& !h.name.huffman
                    &&& !h.value.huffman
                },
                Err(e) => {
                    &&& e == QpackError::DecompressionFailed
                    &&& !self.dynamic_table.valid_abs(
                        spec_abs_index(base as int, idx as int, post_base),
                    ) || spec_abs_index(base as int, idx as int, post_base) > usize::MAX
                },
            },
    {
        match Table::calc_abs_index(base, idx, post_base) {
            Some(abs) => {
                let r = self.dynamic_table.get(abs);
                proof {
                    if r is Err {
                        assert(!self.dynamic_table.valid_abs(
                            spec_abs_index(base as int, idx as int, post_base),
                        ));
                    }
                }
                r
            },
            None => {
                proof {
                    if !post_base {
                        // A negative absolute index is below the eviction
                        // count.
                        assert(spec_abs_index(base as int, idx as int, post_base) < 0);
                        assert(!self.dynamic_table.valid_abs(
                            spec_abs_index(base as int, idx as int, post_base),
                        ));
                    }
                }
                Err(QpackError::DecompressionFailed)
            },
        }
    }

    pub fn get_insert_count(&self) -> (r: usize)
        ensures
            r == self.dynamic_table.insert_count,
    {
        self.dynamic_table.get_insert_count()
    }

    pub fn get_dynamic_table_entry_len(&self) -> (r: usize)
        ensures
            r == self.dynamic_table.list@.len(),
    {
        self.dynamic_table.get_entry_len()
    }

    /// The largest number of entries the dynamic table could ever hold:
    /// `max_capacity / 32`.
    pub fn get_max_entries(&self) -> (r: usize)
        ensures
            r == self.dynamic_table.max_capacity as int / 32,
    {
        self.dynamic_table.max_capacity / 32
    }
}

/// The absolute index named by a field-block index, as a mathematical
/// integer: `base + idx` post-base, `base - idx - 1` relative.
pub open spec fn spec_abs_index(base: int, idx: int, post_base: bool) -> int {
    if post_base {
        base + idx
    } else {
        base - idx - 1
    }
}

} // verus!
