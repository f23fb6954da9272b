use recovery::sectors::{cut_out, whole_sectors, MAX_SECTOR_LEN};
use recovery::walk::Request;

#[test]
fn requests_are_widened_to_whole_sectors() {
    let widened = |offset: u64, len: usize| whole_sectors(Request { offset, len }, 512);
    assert_eq!(widened(0, 512), Some(Request { offset: 0, len: 512 }));
    assert_eq!(widened(16392, 4), Some(Request { offset: 16384, len: 512 }));
    assert_eq!(widened(510, 4), Some(Request { offset: 0, len: 1024 }));
    assert_eq!(widened(1024, 0), Some(Request { offset: 1024, len: 0 }));
    assert_eq!(widened(u64::MAX - 100, 50), None);
    assert_eq!(widened(u64::MAX - 1023, 512), Some(Request { offset: u64::MAX - 1023, len: 512 }));
}

#[test]
fn sectors_have_the_size_that_the_volume_states() {
    let entry = Request { offset: 32 * 4096 + 200 * 4, len: 4 };
    let sectors = whole_sectors(entry, 4096);
    assert_eq!(sectors, Some(Request { offset: 32 * 4096, len: 4096 }));
    let crossing = Request { offset: 4095, len: 2 };
    assert_eq!(whole_sectors(crossing, 4096), Some(Request { offset: 0, len: 8192 }));
    assert_eq!(whole_sectors(crossing, 2048), Some(Request { offset: 2048, len: 4096 }));
    assert_eq!(whole_sectors(crossing, 1), Some(crossing));
}

#[test]
fn the_largest_sectors_are_whole_sectors_of_every_size() {
    let widest = whole_sectors(Request { offset: 70000, len: 9000 }, MAX_SECTOR_LEN).unwrap();
    for sector_len in [512u64, 1024, 2048, 4096] {
        assert_eq!(widest.offset % sector_len, 0);
        assert_eq!(widest.len as u64 % sector_len, 0);
    }
}

#[test]
fn answers_are_cut_out_of_sectors() {
    let contents: Vec<u8> = (0..8192u32).map(|i| (i * 31 / 7) as u8).collect();
    for sector_len in [512u64, 1024, 4096] {
        for (offset, len) in [(0usize, 512usize), (510, 4), (700, 1), (4095, 2), (513, 1023)] {
            let request = Request { offset: offset as u64, len };
            let sectors = whole_sectors(request, sector_len).unwrap();
            let from = sectors.offset as usize;
            let data = cut_out(request, sector_len, &contents[from..from + sectors.len]);
            assert_eq!(data.unwrap(), contents[offset..offset + len]);
        }
    }
}

#[test]
fn an_answer_may_lie_in_a_sector_that_is_not_all_there() {
    let contents: Vec<u8> = (0..700u32).map(|i| i as u8).collect();
    let request = Request { offset: 600, len: 100 };
    assert_eq!(cut_out(request, 512, &contents[512..]).unwrap(), contents[600..700]);
    assert_eq!(cut_out(Request { offset: 600, len: 101 }, 512, &contents[512..]), None);
    assert_eq!(cut_out(request, 512, &[]), None);
}
