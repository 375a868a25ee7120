use mem_backend::base64_bytes::{deserialize, serialize};
use mem_backend::layout::{MemoryRange, SnapshotMemoryLayout};
use mem_backend::snapshot::{SnapshotMemoryResponse, SnapshotType};

#[test]
fn test_snapshot_memory_layout_bits() {
    // Diff: 16 pages, all plugged.
    let mut layout = SnapshotMemoryLayout::diff(16 * 4096, 4096, 16 * 4096);
    assert_eq!(layout.pages.as_deref(), Some(&[0u8, 0][..]));
    assert_eq!(layout.set_pages(), 0);

    layout.set_range(0, 2 * 4096);
    layout.set_range(8 * 4096, 4096);
    assert_eq!(layout.pages.as_deref(), Some(&[0b11u8, 0b1][..]));
    assert_eq!(layout.set_pages(), 3);
    assert!(layout.page_is_set(0));
    assert!(layout.page_is_set(4096));
    assert!(!layout.page_is_set(2 * 4096));
    assert!(layout.page_is_set(8 * 4096));
    assert!(!layout.page_is_set(1 << 40));

    // The bitmap covers the plugged part of the file only, rounded up to whole bytes; its
    // length does not depend on what is set.
    let layout = SnapshotMemoryLayout::diff(64 * 4096, 4096, 13 * 4096);
    assert_eq!(layout.pages.as_ref().unwrap().len(), 2);
    assert!(!layout.page_is_set(63 * 4096));
    let layout = SnapshotMemoryLayout::diff(64 * 4096, 4096, 0);
    assert_eq!(layout.pages.as_deref(), Some(&[][..]));

    // Full: no bitmap, everything but `unplugged` is set.
    let layout = SnapshotMemoryLayout::full(
        16 * 4096,
        4096,
        vec![MemoryRange {
            offset: 8 * 4096,
            len: 4 * 4096,
        }],
    );
    assert!(layout.pages.is_none());
    assert_eq!(layout.set_pages(), 12);
    assert!(layout.page_is_set(0));
    assert!(layout.page_is_set(7 * 4096));
    assert!(!layout.page_is_set(8 * 4096));
    assert!(!layout.page_is_set(11 * 4096));
    assert!(layout.page_is_set(12 * 4096));
    assert!(!layout.page_is_set(16 * 4096));
}

/// A 1 MiB guest whose last 256 KiB is an unplugged slot.
fn one_mib_guest() -> SnapshotMemoryLayout {
    let mut layout = SnapshotMemoryLayout::diff(1048576, 4096, 786432);
    for (first, last) in [
        (0u64, 1u64),
        (9, 12),
        (40, 40),
        (58, 67),
        (100, 100),
        (130, 131),
        (157, 157),
        (170, 180),
    ] {
        layout.set_range(first * 4096, (last - first + 1) * 4096);
    }
    layout.unplugged.push(MemoryRange {
        offset: 786432,
        len: 262144,
    });
    layout
}

#[test]
fn dirty_pages_of_a_one_mib_guest() {
    let layout = one_mib_guest();
    let pages = layout.pages.clone().unwrap();
    assert_eq!(pages.len(), 24);
    assert_eq!(
        pages,
        vec![
            0x03, 0x1e, 0x00, 0x00, 0x00, 0x01, 0x00, 0xfc, 0x0f, 0x00, 0x00, 0x00, 0x10, 0x00,
            0x00, 0x00, 0x0c, 0x00, 0x00, 0x20, 0x00, 0xfc, 0x1f, 0x00
        ]
    );
    assert_eq!(layout.set_pages(), 32);
    assert_eq!(
        serialize(&layout.pages).as_deref(),
        Some("Ax4AAAABAPwPAAAAEAAAAAwAACAA/B8A")
    );
    let back = deserialize(Some("Ax4AAAABAPwPAAAAEAAAAAwAACAA/B8A".to_string())).unwrap();
    assert_eq!(back, layout.pages);
    // Unplugged pages are past the bitmap.
    for page in 192..256u64 {
        assert!(!layout.page_is_set(page * 4096));
    }
}

#[test]
fn counted_pages_are_the_set_ones() {
    let layout = one_mib_guest();
    let set = (0..256u64).filter(|p| layout.page_is_set(p * 4096)).count();
    assert_eq!(set as u64, layout.set_pages());

    let full = SnapshotMemoryLayout::full(
        1048576,
        4096,
        vec![
            MemoryRange {
                offset: 4096,
                len: 4096,
            },
            MemoryRange {
                offset: 786432,
                len: 262144,
            },
        ],
    );
    let set = (0..256u64).filter(|p| full.page_is_set(p * 4096)).count();
    assert_eq!(set as u64, full.set_pages());
    assert_eq!(full.set_pages(), 191);
}

#[test]
fn bitmap_is_an_array_of_little_endian_words() {
    let layout = one_mib_guest();
    let pages = layout.pages.clone().unwrap();
    for (w, bytes) in pages.chunks(8).enumerate() {
        let mut word = 0u64;
        for (i, b) in bytes.iter().enumerate() {
            word |= u64::from(*b) << (8 * i);
        }
        for j in 0..64u64 {
            let page = 64 * w as u64 + j;
            assert_eq!(word & (1 << j) != 0, layout.page_is_set(page * 4096));
        }
    }
}

#[test]
fn bitmap_of_one_gib_has_32_kib() {
    let layout = SnapshotMemoryLayout::diff(1 << 30, 4096, 1 << 30);
    assert_eq!(layout.pages.as_ref().unwrap().len(), 32 * 1024);
    assert_eq!(serialize(&layout.pages).unwrap().len(), 43692);
    // Unplugged memory at the end costs nothing.
    let layout = SnapshotMemoryLayout::diff(1 << 40, 4096, 1 << 30);
    assert_eq!(layout.pages.as_ref().unwrap().len(), 32 * 1024);
    assert_eq!(layout.total_size, 1 << 40);
    assert_eq!(layout.page_size, 4096);
    assert!(layout.unplugged.is_empty());
}

#[test]
fn ranges_are_rounded_to_whole_pages() {
    let mut layout = SnapshotMemoryLayout::diff(8 * 4096, 4096, 8 * 4096);
    layout.set_range(4096 + 1, 4096);
    assert_eq!(layout.pages.as_deref(), Some(&[0b110u8][..]));
    layout.set_range(7 * 4096, 4096);
    assert_eq!(layout.pages.as_deref(), Some(&[0b1000_0110u8][..]));
    // An empty aligned range sets nothing, wherever it lies.
    layout.set_range(100 * 4096, 0);
    assert_eq!(layout.pages.as_deref(), Some(&[0b1000_0110u8][..]));
    // Any offset within a page reads the page's bit.
    assert!(layout.page_is_set(4096 + 17));
    assert!(!layout.page_is_set(4095));
}

#[test]
fn ranges_in_any_order_and_twice() {
    let mut a = SnapshotMemoryLayout::diff(64 * 4096, 4096, 64 * 4096);
    let mut b = a.clone();
    a.set_range(3 * 4096, 7 * 4096);
    a.set_range(5 * 4096, 40 * 4096);
    b.set_range(5 * 4096, 40 * 4096);
    b.set_range(3 * 4096, 7 * 4096);
    b.set_range(5 * 4096, 40 * 4096);
    assert_eq!(a, b);
    assert_eq!(a.set_pages(), 42);
}

#[test]
fn merging_a_diff_gives_the_full_file() {
    // One byte per page stands for its content.
    let memory: Vec<u8> = (0..16).map(|p| 100 + p).collect();
    let mut base: Vec<u8> = memory.clone();
    let unplugged = vec![MemoryRange {
        offset: 8 * 4096,
        len: 4 * 4096,
    }];
    let mut diff = SnapshotMemoryLayout::diff(16 * 4096, 4096, 16 * 4096);
    diff.unplugged = unplugged.clone();
    for page in [1usize, 2, 13] {
        base[page] = 1;
        diff.set_range(page as u64 * 4096, 4096);
    }
    let full = SnapshotMemoryLayout::full(16 * 4096, 4096, unplugged);
    let copy = |layout: &SnapshotMemoryLayout, before: &[u8]| -> Vec<u8> {
        (0..16usize)
            .map(|p| {
                if (8..12).contains(&p) {
                    0
                } else if layout.page_is_set(p as u64 * 4096) {
                    memory[p]
                } else {
                    before[p]
                }
            })
            .collect()
    };
    assert_eq!(copy(&diff, &base), copy(&full, &[7; 16]));
}

#[test]
fn pages_larger_than_the_plugged_part() {
    let layout = SnapshotMemoryLayout::diff(2097152, 2097152, 1);
    assert_eq!(layout.pages.as_deref(), Some(&[0u8][..]));
    assert_eq!(SnapshotMemoryLayout::default().pages, None);
}

/// The JSON form of a layout. Its numbers and names are written here; the text of its bitmap is the
/// library's.
fn layout_to_json(layout: &SnapshotMemoryLayout) -> String {
    let pages = match serialize(&layout.pages) {
        Some(text) => format!(r#""pages":{},"#, serde_json::to_string(&text).unwrap()),
        None => String::new(),
    };
    let unplugged: Vec<String> = layout
        .unplugged
        .iter()
        .map(|r| format!(r#"{{"offset":{},"len":{}}}"#, r.offset, r.len))
        .collect();
    format!(
        r#"{{"total_size":{},"page_size":{},{}"unplugged":[{}]}}"#,
        layout.total_size,
        layout.page_size,
        pages,
        unplugged.join(",")
    )
}

fn layout_from_value(value: &serde_json::Value) -> Result<SnapshotMemoryLayout, String> {
    let number = |value: &serde_json::Value| value.as_u64().ok_or("no number".to_string());
    let text = value.get("pages").map(|text| text.as_str().unwrap().to_string());
    let mut unplugged = Vec::new();
    for range in value["unplugged"].as_array().ok_or("no ranges")? {
        unplugged.push(MemoryRange {
            offset: number(&range["offset"])?,
            len: number(&range["len"])?,
        });
    }
    Ok(SnapshotMemoryLayout {
        total_size: number(&value["total_size"])?,
        page_size: number(&value["page_size"])?,
        pages: deserialize(text).map_err(|error| error.message)?,
        unplugged,
    })
}

fn layout_from_json(json: &str) -> Result<SnapshotMemoryLayout, String> {
    layout_from_value(&serde_json::from_str(json).map_err(|error| error.to_string())?)
}

fn response_to_json(response: &SnapshotMemoryResponse) -> String {
    let snapshot_type = match response.snapshot_type {
        Some(SnapshotType::Diff) => r#""snapshot_type":"Diff","#,
        Some(SnapshotType::Full) => r#""snapshot_type":"Full","#,
        None => "",
    };
    format!(
        r#"{{{}"memory":{}}}"#,
        snapshot_type,
        layout_to_json(&response.memory)
    )
}

fn response_from_json(json: &str) -> Result<SnapshotMemoryResponse, String> {
    let value: serde_json::Value = serde_json::from_str(json).map_err(|error| error.to_string())?;
    Ok(SnapshotMemoryResponse {
        snapshot_type: match value.get("snapshot_type").and_then(|t| t.as_str()) {
            Some("Diff") => Some(SnapshotType::Diff),
            Some("Full") => Some(SnapshotType::Full),
            Some(other) => return Err(other.to_string()),
            None => None,
        },
        memory: layout_from_value(&value["memory"])?,
    })
}

#[test]
fn test_snapshot_memory_layout_json() {
    // Pages 0, 1 and 12 set, the slot at pages 8..12 unplugged.
    let mut layout = SnapshotMemoryLayout::diff(16 * 4096, 4096, 16 * 4096);
    layout.set_range(0, 2 * 4096);
    layout.set_range(12 * 4096, 4096);
    layout.unplugged.push(MemoryRange {
        offset: 8 * 4096,
        len: 4 * 4096,
    });
    assert_eq!(serialize(&layout.pages).as_deref(), Some("AxA="));
    let json = layout_to_json(&layout);
    assert_eq!(
        json,
        r#"{"total_size":65536,"page_size":4096,"pages":"AxA=","unplugged":[{"offset":32768,"len":16384}]}"#
    );
    let back = layout_from_json(&json).unwrap();
    assert_eq!(back, layout);

    // A full layout has no `pages` field at all.
    let full = SnapshotMemoryLayout::full(16 * 4096, 4096, layout.unplugged.clone());
    let json = layout_to_json(&full);
    assert_eq!(
        json,
        r#"{"total_size":65536,"page_size":4096,"unplugged":[{"offset":32768,"len":16384}]}"#
    );
    assert_eq!(layout_from_json(&json).unwrap(), full);

    let response = SnapshotMemoryResponse {
        snapshot_type: Some(SnapshotType::Diff),
        memory: layout,
    };
    let json = response_to_json(&response);
    assert!(json.starts_with(r#"{"snapshot_type":"Diff","memory":{"#));
    assert_eq!(response_from_json(&json).unwrap(), response);

    // Invalid base64 is rejected.
    layout_from_json(r#"{"total_size":4096,"page_size":4096,"pages":"!!","unplugged":[]}"#)
        .unwrap_err();
}

#[test]
fn a_full_layout_is_the_diff_of_every_plugged_page() {
    let unplugged = vec![
        MemoryRange {
            offset: 3 * 4096,
            len: 2 * 4096,
        },
        MemoryRange {
            offset: 17 * 4096,
            len: 15 * 4096,
        },
    ];
    let full = SnapshotMemoryLayout::full(32 * 4096, 4096, unplugged);
    let mut diff = SnapshotMemoryLayout::diff(32 * 4096, 4096, 17 * 4096);
    diff.set_range(0, 3 * 4096);
    diff.set_range(5 * 4096, 12 * 4096);
    for offset in (0..40 * 4096u64).step_by(1024) {
        assert_eq!(full.page_is_set(offset), diff.page_is_set(offset));
    }
    assert_eq!(full.set_pages(), 15);
    assert_eq!(diff.set_pages(), 15);
}

#[test]
fn adjacent_ranges_may_be_set_as_one() {
    let mut a = SnapshotMemoryLayout::diff(32 * 4096, 4096, 32 * 4096);
    let mut b = a.clone();
    a.set_range(2 * 4096, 5 * 4096);
    a.set_range(7 * 4096, 9 * 4096);
    b.set_range(2 * 4096, 14 * 4096);
    assert_eq!(a, b);
}

#[test]
fn pages_are_counted_for_ranges_in_any_order() {
    let range = |offset: u64, len: u64| MemoryRange {
        offset: offset * 4096,
        len: len * 4096,
    };
    let full = SnapshotMemoryLayout::full(
        32 * 4096,
        4096,
        vec![range(20, 4), range(3, 2), range(30, 2), range(5, 1)],
    );
    let set = (0..32u64).filter(|p| full.page_is_set(p * 4096)).count();
    assert_eq!(full.set_pages(), 23);
    assert_eq!(set as u64, full.set_pages());
    let unplugged: u64 = full.unplugged.iter().map(|r| r.len).sum();
    assert_eq!(full.set_pages() * 4096 + unplugged, full.total_size);
}
