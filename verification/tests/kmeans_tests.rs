use snake_console::kmeans::{kmeans, kmeans_defined};

fn points(values: &[i8]) -> heapless::Vec<i8, 50> {
    let mut v: heapless::Vec<i8, 50> = heapless::Vec::new();
    for x in values {
        v.push(*x).unwrap();
    }
    v
}

const SAMPLE: [i8; 50] = [
    32, -48, -98, -37, -105, 103, 84, 82, 6, 12, 65, 115, 99, -69, 13, -63, -80, -32, 32, -89, 28,
    12, -27, 6, -106, -74, 25, -123, 44, -52, -107, 55, -69, 9, -103, 86, 122, 73, 122, -37, -21,
    69, -14, 89, 14, -104, -49, 92, -47, 97,
];

#[test]
fn sample_points_cluster() {
    let pts = points(&SAMPLE);
    assert!(kmeans_defined(&pts));
    let clusters = kmeans(pts);
    assert_eq!(clusters.len(), 5);
    let centers: Vec<i8> = clusters.iter().map(|c| c.center).collect();
    assert_eq!(centers, vec![-50, 6, 49, 99, -101]);
    for c in clusters.iter() {
        assert!(c.members.is_empty());
    }
}

#[test]
fn one_point_per_center_stays_put() {
    let pts = points(&[-50, 0, 50, 100, -106]);
    assert!(kmeans_defined(&pts));
    let clusters = kmeans(pts);
    let centers: Vec<i8> = clusters.iter().map(|c| c.center).collect();
    assert_eq!(centers, vec![-50, 0, 50, 100, -106]);
}

#[test]
fn mean_rounds_toward_zero() {
    // -51 and -54 join the first center; their mean -52.5 becomes -52.
    // 1 and 2 join the second; 1.5 becomes 1.
    let pts = points(&[-51, -54, 1, 2, 50, 100, -106]);
    assert!(kmeans_defined(&pts));
    let clusters = kmeans(pts);
    let centers: Vec<i8> = clusters.iter().map(|c| c.center).collect();
    assert_eq!(centers, vec![-52, 1, 50, 100, -106]);
}

#[test]
fn ties_go_to_the_first_center() {
    // 25 is as far from 0 as from 50 and joins the center 0
    let pts = points(&[25, 0, 50, 100, -106, -50]);
    assert!(kmeans_defined(&pts));
    let clusters = kmeans(pts);
    let centers: Vec<i8> = clusters.iter().map(|c| c.center).collect();
    assert_eq!(centers, vec![-50, 12, 50, 100, -106]);
}

#[test]
fn empty_cluster_is_undefined() {
    assert!(!kmeans_defined(&points(&[])));
    assert!(!kmeans_defined(&points(&[0])));
    assert!(!kmeans_defined(&points(&[-50, 0, 50, 100])));
}

#[test]
fn try_kmeans_answers_none_where_undefined() {
    assert!(snake_console::kmeans::try_kmeans(points(&[0, 1])).is_none());
    let clusters = snake_console::kmeans::try_kmeans(points(&SAMPLE)).unwrap();
    let centers: Vec<i8> = clusters.iter().map(|c| c.center).collect();
    assert_eq!(centers, vec![-50, 6, 49, 99, -101]);
}
