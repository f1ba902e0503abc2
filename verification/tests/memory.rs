use oscore::mm::MapPermission;
use oscore::syscall::{sys_mmap, sys_munmap};
use oscore::task::TaskManager;
use oscore::PAGE_SIZE;

fn boot() -> TaskManager {
    // One task whose image covers one page, so virtual pages at 16 and
    // above are free for mmap requests.
    let sizes: Vec<usize> = vec![100];
    let mut tm = TaskManager::new(&sizes);
    tm.run_first_task();
    tm
}

#[test]
fn permissions_compose_by_union() {
    let ro = MapPermission::from_port(0b001);
    let wx = MapPermission::from_port(0b110);
    let all = ro.union(wx);
    assert!(all.r && all.w && all.x && all.u);
    let none = MapPermission::from_port(0);
    assert_eq!(none.union(none), none);
}

#[test]
fn mmap_records_port_permissions() {
    let mut tm = boot();
    let r = sys_mmap(&mut tm, 16 * PAGE_SIZE, 2 * PAGE_SIZE, 0b011);
    assert_eq!(r, 0);
    let regions = &tm.tasks[0].memory_set.regions;
    assert_eq!(regions.len(), 2);
    let reg = regions[1];
    assert_eq!(reg.start, 16);
    assert_eq!(reg.end, 18);
    assert!(reg.perm.r);
    assert!(reg.perm.w);
    assert!(!reg.perm.x);
    assert!(reg.perm.u);
}

#[test]
fn mmap_zero_port_is_legal() {
    let mut tm = boot();
    assert_eq!(sys_mmap(&mut tm, 16 * PAGE_SIZE, PAGE_SIZE, 0), 0);
    let reg = tm.tasks[0].memory_set.regions[1];
    assert!(!reg.perm.r && !reg.perm.w && !reg.perm.x && reg.perm.u);
}

#[test]
fn mmap_rejects_port_with_extra_bits() {
    let mut tm = boot();
    assert_eq!(sys_mmap(&mut tm, 16 * PAGE_SIZE, PAGE_SIZE, 0b1000), -1);
    assert_eq!(sys_mmap(&mut tm, 16 * PAGE_SIZE, PAGE_SIZE, 0x17), -1);
    assert_eq!(tm.tasks[0].memory_set.regions.len(), 1);
}

#[test]
fn mmap_overlap_fails_and_leaves_space_unchanged() {
    let mut tm = boot();
    assert_eq!(sys_mmap(&mut tm, 16 * PAGE_SIZE, 2 * PAGE_SIZE, 0b011), 0);
    let before: Vec<(usize, usize)> =
        tm.tasks[0].memory_set.regions.iter().map(|r| (r.start, r.end)).collect();
    // Overlaps page 17 of the existing [16, 18) mapping.
    assert_eq!(sys_mmap(&mut tm, 17 * PAGE_SIZE, 2 * PAGE_SIZE, 0b011), -1);
    let after: Vec<(usize, usize)> =
        tm.tasks[0].memory_set.regions.iter().map(|r| (r.start, r.end)).collect();
    assert_eq!(before, after);
}

#[test]
fn mmap_unaligned_start_covers_containing_page() {
    let mut tm = boot();
    // Start in the middle of page 16, one byte long: maps page 16 only.
    assert_eq!(sys_mmap(&mut tm, 16 * PAGE_SIZE + 100, 1, 0b001), 0);
    let reg = tm.tasks[0].memory_set.regions[1];
    assert_eq!((reg.start, reg.end), (16, 17));
}

#[test]
fn munmap_then_munmap_again_fails() {
    let mut tm = boot();
    let a = 16 * PAGE_SIZE;
    assert_eq!(sys_mmap(&mut tm, a, 2 * PAGE_SIZE, 0b011), 0);
    assert_eq!(sys_munmap(&mut tm, a, 2 * PAGE_SIZE), 0);
    assert_eq!(tm.tasks[0].memory_set.regions.len(), 1);
    // The same range is no longer mapped: a second unmap fails.
    assert_eq!(sys_munmap(&mut tm, a, 2 * PAGE_SIZE), -1);
}

#[test]
fn munmap_fails_whole_when_any_page_unmapped() {
    let mut tm = boot();
    assert_eq!(sys_mmap(&mut tm, 16 * PAGE_SIZE, PAGE_SIZE, 0b011), 0);
    // Pages 16..19 requested, but 17 and 18 are unmapped: nothing changes.
    assert_eq!(sys_munmap(&mut tm, 16 * PAGE_SIZE, 3 * PAGE_SIZE), -1);
    assert_eq!(tm.tasks[0].memory_set.regions.len(), 2);
    assert_eq!(sys_munmap(&mut tm, 16 * PAGE_SIZE, PAGE_SIZE), 0);
}

#[test]
fn munmap_can_split_a_region() {
    let mut tm = boot();
    assert_eq!(sys_mmap(&mut tm, 16 * PAGE_SIZE, 3 * PAGE_SIZE, 0b011), 0);
    // Drop the middle page of [16, 19).
    assert_eq!(sys_munmap(&mut tm, 17 * PAGE_SIZE, PAGE_SIZE), 0);
    let mut pages: Vec<(usize, usize)> =
        tm.tasks[0].memory_set.regions.iter().map(|r| (r.start, r.end)).collect();
    pages.sort();
    assert_eq!(pages, vec![(0, 1), (16, 17), (18, 19)]);
    assert_eq!(sys_munmap(&mut tm, 17 * PAGE_SIZE, PAGE_SIZE), -1);
    assert_eq!(sys_munmap(&mut tm, 16 * PAGE_SIZE, PAGE_SIZE), 0);
    assert_eq!(sys_munmap(&mut tm, 18 * PAGE_SIZE, PAGE_SIZE), 0);
}

#[test]
fn mmap_spanning_two_regions_unmaps_whole() {
    let mut tm = boot();
    assert_eq!(sys_mmap(&mut tm, 16 * PAGE_SIZE, PAGE_SIZE, 0b011), 0);
    assert_eq!(sys_mmap(&mut tm, 17 * PAGE_SIZE, PAGE_SIZE, 0b001), 0);
    // The span covers two previously independent regions, all mapped.
    assert_eq!(sys_munmap(&mut tm, 16 * PAGE_SIZE, 2 * PAGE_SIZE), 0);
    assert_eq!(tm.tasks[0].memory_set.regions.len(), 1);
}
