use foxy_ecs::mesh::fanned_indices;

#[test]
fn fan_of_triangle() {
    assert_eq!(fanned_indices(3), vec![0, 1, 2]);
}

#[test]
fn fan_of_quad() {
    assert_eq!(fanned_indices(4), vec![0, 1, 2, 0, 2, 3]);
}

#[test]
fn fan_of_pentagon() {
    assert_eq!(fanned_indices(5), vec![0, 1, 2, 0, 2, 3, 0, 3, 4]);
}

#[test]
fn fan_length_and_bounds() {
    let n: u32 = 37;
    let idx = fanned_indices(n);
    assert_eq!(idx.len(), 3 * (n as usize - 2));
    assert!(idx.iter().all(|&i| i < n));
}
