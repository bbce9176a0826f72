use plasma_simulation::field::Field;
use plasma_simulation::mesh::Dimensions;

#[test]
fn dimensions_new_keeps_counts() {
    let d = Dimensions::new(4, 5, 6);
    assert_eq!((d.x, d.y, d.z), (4, 5, 6));
    let t: (usize, usize, usize) = d.into();
    assert_eq!(t, (4, 5, 6));
}

#[test]
fn dimensions_validity() {
    assert!(Dimensions::new(3, 3, 3).is_valid());
    assert!(!Dimensions::new(2, 3, 3).is_valid());
    assert!(!Dimensions::new(3, 3, 0).is_valid());
    assert!(!Dimensions::new(usize::MAX, 3, 3).is_valid());
}

#[test]
fn counts_of_nodes_cells_and_interior() {
    let d = Dimensions::new(4, 5, 6);
    assert_eq!(d.node_count(), 120);
    assert_eq!(d.cell_count(), 60);
    assert_eq!(d.interior_node_count(), 24);
    assert_eq!(Dimensions::new(2, 7, 7).interior_node_count(), 0);
}

#[test]
fn flat_index_is_row_major() {
    let d = Dimensions::new(4, 5, 6);
    assert_eq!(d.flat_index(0, 0, 0), 0);
    assert_eq!(d.flat_index(0, 0, 1), 1);
    assert_eq!(d.flat_index(0, 1, 0), 6);
    assert_eq!(d.flat_index(1, 0, 0), 30);
    assert_eq!(d.flat_index(3, 4, 5), 119);
}

#[test]
fn boundary_nodes() {
    let d = Dimensions::new(3, 4, 5);
    assert!(d.is_boundary_node(0, 1, 1));
    assert!(d.is_boundary_node(1, 3, 1));
    assert!(d.is_boundary_node(1, 1, 4));
    assert!(!d.is_boundary_node(1, 2, 3));
}

#[test]
fn node_volume_fractions_by_position() {
    let d = Dimensions::new(4, 4, 4);
    assert_eq!(d.node_volume_eighths(0, 0, 0), 1);
    assert_eq!(d.node_volume_eighths(3, 0, 3), 1);
    assert_eq!(d.node_volume_eighths(1, 0, 0), 2);
    assert_eq!(d.node_volume_eighths(1, 2, 0), 4);
    assert_eq!(d.node_volume_eighths(1, 2, 2), 8);
}

#[test]
fn node_volumes_add_up_to_the_cells() {
    for (x, y, z) in [(3, 3, 3), (4, 5, 6), (21, 21, 21), (2, 2, 2)] {
        let d = Dimensions::new(x, y, z);
        let mut total: usize = 0;
        for i in 0..x {
            for j in 0..y {
                for k in 0..z {
                    total += d.node_volume_eighths(i, j, k) as usize;
                }
            }
        }
        assert_eq!(total, 8 * d.cell_count());
    }
}

#[test]
fn field_new_get_set_clear() {
    let d = Dimensions::new(3, 4, 5);
    let mut f = Field::new(d, 0i64);
    assert_eq!(f.dimensions(), d);
    assert_eq!(f.get(2, 3, 4), 0);
    f.set(2, 3, 4, 7);
    f.set(0, 1, 2, -3);
    assert_eq!(f.get(2, 3, 4), 7);
    assert_eq!(f.get(0, 1, 2), -3);
    assert_eq!(f.get(1, 1, 1), 0);
    f.clear(0);
    assert_eq!(f.get(2, 3, 4), 0);
    assert_eq!(f.get(0, 1, 2), 0);
}
