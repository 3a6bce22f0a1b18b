use qpack::dynamic_table::DynamicTable;
use qpack::dynamic_table::Entry;
use qpack::types::Header;
use qpack::types::QpackError;

const MAX_TABLE_SIZE: usize = 1024;

fn gen_table() -> DynamicTable {
    DynamicTable::new(MAX_TABLE_SIZE)
}

#[test]
fn set_capacity() {
    let cap = 512;
    let mut table = gen_table();
    let out = table.set_capacity(cap);
    assert_eq!(out.unwrap(), ());
    assert_eq!(table.capacity, cap);
}

#[test]
fn set_capacity_err() {
    let cap = MAX_TABLE_SIZE + 1;
    let mut table = gen_table();
    let out = table.set_capacity(cap).unwrap_err();
    assert_eq!(out, QpackError::EncoderStreamError);
}

fn verify_insert(
    table: &DynamicTable,
    expected_size: usize,
    expected_insert_count: usize,
    expected_list_len: usize,
) {
    assert_eq!(table.current_size, expected_size);
    assert_eq!(table.insert_count, expected_insert_count);
    assert_eq!(table.get_entry_len(), expected_list_len);
}

#[test]
fn insert_header() {
    let cap = 512;
    let mut table = gen_table();
    let _ = table.set_capacity(cap);
    let header = Header::from_str(":path", "/index.html");
    let size = header.size().unwrap();
    let out = table.insert_header(header);
    assert_eq!(out.unwrap(), ());
    verify_insert(&table, size, 1, 1);
}

#[test]
fn insert_header_err_bigger_than_cap() {
    let cap = 10;
    let mut table = gen_table();
    let _ = table.set_capacity(cap);
    let header = Header::from_str(":path", "/index.html");
    let out = table.insert_header(header).unwrap_err();
    assert_eq!(out, QpackError::EncoderStreamError);
    verify_insert(&table, 0, 0, 0);
}

#[test]
fn insert_table_entry() {
    let cap = 512;
    let mut table = gen_table();
    let _ = table.set_capacity(cap);
    let entry = Entry::new(b":path".to_vec(), b"/index.html".to_vec()).unwrap();
    let size = entry.size;
    let out = table.insert_table_entry(entry);
    assert_eq!(out.unwrap(), ());
    verify_insert(&table, size, 1, 1);
}

#[test]
fn insert_table_entry_bigger_than_cap() {
    let cap = 10;
    let mut table = gen_table();
    let _ = table.set_capacity(cap);
    let entry = Entry::new(b":path".to_vec(), b"/index.html".to_vec()).unwrap();
    let out = table.insert_table_entry(entry).unwrap_err();
    assert_eq!(out, QpackError::EncoderStreamError);
    verify_insert(&table, 0, 0, 0);
}

#[test]
fn get() {
    let cap = 512;
    let mut table = gen_table();
    let _ = table.set_capacity(cap);
    let headers = vec![
        Header::from_str(":path", "/index.html"),
        Header::from_str("TARGET_KEY", "TARGET_VALUE"),
        Header::from_str(":method", "GET"),
    ];
    for header in &headers {
        let _ = table.insert_header(header.clone());
    }
    let header = table.get(1);
    assert_eq!(header.unwrap(), headers[1]);
}

#[test]
fn get_not_found() {
    let table = gen_table();
    let out = table.get(128).unwrap_err();
    assert_eq!(out, QpackError::DecompressionFailed);
}

// An entry still referenced by a pending section blocks a capacity cut that
// would have to evict it; the table is left untouched.
#[test]
fn set_capacity_blocked_by_reference() {
    let mut table = gen_table();
    table.set_capacity(512).unwrap();
    table
        .insert_header(Header::from_str("custom-key", "custom-value"))
        .unwrap();
    table.ref_entry_at(0).unwrap();
    // The entry is unacknowledged and referenced: shrinking below its size
    // must fail without mutation.
    let out = table.set_capacity(10).unwrap_err();
    assert_eq!(out, QpackError::EncoderStreamError);
    assert_eq!(table.capacity, 512);
    assert_eq!(table.get_entry_len(), 1);
    // Releasing the reference alone is not enough: the peer has not
    // acknowledged the entry yet.
    table.deref_entry_at(0).unwrap();
    assert_eq!(table.set_capacity(10).unwrap_err(), QpackError::EncoderStreamError);
    // After acknowledgement the eviction goes through.
    let no_refs: Vec<usize> = Vec::new();
    table.ack_section(1, &no_refs).unwrap();
    table.set_capacity(10).unwrap();
    assert_eq!(table.get_entry_len(), 0);
    assert_eq!(table.current_size, 0);
}

// Insert-count increments are validated: a zero increment and one beyond
// the insert count are decoder-stream errors.
#[test]
fn insert_count_increment_bounds() {
    let mut table = gen_table();
    table.set_capacity(512).unwrap();
    table
        .insert_header(Header::from_str("custom-key", "custom-value"))
        .unwrap();
    assert_eq!(
        table.insert_count_increment(0).unwrap_err(),
        QpackError::DecoderStreamError
    );
    assert_eq!(
        table.insert_count_increment(2).unwrap_err(),
        QpackError::DecoderStreamError
    );
    table.insert_count_increment(1).unwrap();
    assert_eq!(table.known_received_count, 1);
}

// find_index prefers the most recent exact match, then the most recent name
// match, and reports absolute indices.
#[test]
fn find_index_order() {
    let mut table = gen_table();
    table.set_capacity(1024).unwrap();
    table.insert_header(Header::from_str("a", "1")).unwrap();
    table.insert_header(Header::from_str("b", "2")).unwrap();
    table.insert_header(Header::from_str("a", "1")).unwrap();
    table.insert_header(Header::from_str("a", "3")).unwrap();
    assert_eq!(table.find_index(&Header::from_str("a", "1")), (true, 2));
    assert_eq!(table.find_index(&Header::from_str("a", "9")), (false, 3));
    assert_eq!(table.find_index(&Header::from_str("z", "9")), (false, usize::MAX));
}
