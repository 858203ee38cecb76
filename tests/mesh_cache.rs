use voxel_stream::mesh_cache::{MeshCache, MeshCacheInsertBuffer};

#[test]
fn merged_entry_is_found() {
    let mut cache = MeshCache::new();
    let mut buf = MeshCacheInsertBuffer::new();
    let h = cache.new_handle();
    assert_eq!(h.id, 0);
    assert_eq!(cache.get(42), None);
    buf.buffer_insert(42, h);
    assert_eq!(buf.len(), 1);
    // Not visible before the merge.
    assert_eq!(cache.get(42), None);
    cache.apply_buffers(&mut buf);
    assert_eq!(buf.len(), 0);
    assert_eq!(cache.get(42), Some(h));
    assert_eq!(cache.get(43), None);
}

#[test]
fn later_insert_replaces_earlier() {
    let mut cache = MeshCache::new();
    let mut buf = MeshCacheInsertBuffer::new();
    let a = cache.new_handle();
    let b = cache.new_handle();
    buf.buffer_insert(7, a);
    buf.buffer_insert(7, b);
    cache.apply_buffers(&mut buf);
    assert_eq!(cache.get(7), Some(b));
}

#[test]
fn released_handle_is_not_found() {
    let mut cache = MeshCache::new();
    let mut buf = MeshCacheInsertBuffer::new();
    let h = cache.new_handle();
    cache.acquire(h);
    assert_eq!(cache.owner_count(h), 2);
    buf.buffer_insert(9, h);
    cache.apply_buffers(&mut buf);
    cache.release(h);
    assert_eq!(cache.get(9), Some(h));
    cache.release(h);
    assert_eq!(cache.owner_count(h), 0);
    assert_eq!(cache.get(9), None);
}

#[test]
fn merge_sweeps_unheld_entries() {
    let mut cache = MeshCache::new();
    let mut buf = MeshCacheInsertBuffer::new();
    let a = cache.new_handle();
    buf.buffer_insert(1, a);
    cache.apply_buffers(&mut buf);
    cache.release(a);
    // Holding `a` again before any sweep brings the entry back.
    cache.acquire(a);
    assert_eq!(cache.get(1), Some(a));
    cache.release(a);
    let b = cache.new_handle();
    buf.buffer_insert(2, b);
    cache.apply_buffers(&mut buf);
    cache.acquire(a);
    assert_eq!(cache.get(1), None);
    assert_eq!(cache.get(2), Some(b));
}

#[test]
fn empty_merge_changes_nothing() {
    let mut cache = MeshCache::new();
    let mut buf = MeshCacheInsertBuffer::new();
    let a = cache.new_handle();
    buf.buffer_insert(1, a);
    cache.apply_buffers(&mut buf);
    cache.release(a);
    cache.apply_buffers(&mut buf);
    // No sweep ran: holding the handle again makes the entry live again.
    cache.acquire(a);
    assert_eq!(cache.get(1), Some(a));
    assert_eq!(buf.len(), 0);
}

#[test]
fn get_map_lists_every_entry_once() {
    let mut cache = MeshCache::new();
    let mut buf = MeshCacheInsertBuffer::new();
    let a = cache.new_handle();
    let b = cache.new_handle();
    buf.buffer_insert(5, a);
    buf.buffer_insert(6, b);
    buf.buffer_insert(5, b);
    cache.apply_buffers(&mut buf);
    let mut m: Vec<(u64, usize)> = cache.get_map().iter().map(|e| (e.fingerprint, e.handle.id)).collect();
    m.sort();
    assert_eq!(m, vec![(5, b.id), (6, b.id)]);
    assert_eq!(cache.handle_count(), 2);
}

#[test]
fn default_cache_is_empty() {
    let cache = MeshCache::default();
    assert_eq!(cache.handle_count(), 0);
    assert_eq!(cache.get(0), None);
    assert!(cache.get_map().is_empty());
}
