use consult_parcels::distributor::partition;

fn ids(n: usize) -> Vec<String> {
    let mut v = Vec::new();
    let mut i = 0;
    while i < n {
        v.push(format!("id{}", i));
        i += 1;
    }
    v
}

#[test]
fn twenty_identifiers_ten_lanes_gives_ten_lanes_of_two() {
    let input = ids(20);
    let lanes = partition(input.clone(), 10);
    assert_eq!(lanes.len(), 10);
    for lane in &lanes {
        assert_eq!(lane.len(), 2);
    }
    let joined: Vec<String> = lanes.into_iter().flatten().collect();
    assert_eq!(joined, input);
}

#[test]
fn uneven_split_short_last_lane() {
    let input = ids(7);
    let lanes = partition(input.clone(), 3);
    // ceil(7 / 3) = 3, so lanes of 3, 3, 1
    assert_eq!(lanes.len(), 3);
    assert_eq!(lanes[0].len(), 3);
    assert_eq!(lanes[1].len(), 3);
    assert_eq!(lanes[2].len(), 1);
    let joined: Vec<String> = lanes.into_iter().flatten().collect();
    assert_eq!(joined, input);
}

#[test]
fn fewer_items_than_lanes() {
    let input = ids(5);
    let lanes = partition(input.clone(), 10);
    // lane size ceil(5 / 10) = 1: five lanes of one item each
    assert_eq!(lanes.len(), 5);
    for lane in &lanes {
        assert_eq!(lane.len(), 1);
    }
    let joined: Vec<String> = lanes.into_iter().flatten().collect();
    assert_eq!(joined, input);
}

#[test]
fn empty_input_gives_no_lanes() {
    let lanes = partition(Vec::<String>::new(), 10);
    assert!(lanes.is_empty());
}

#[test]
fn single_lane_takes_everything() {
    let input = ids(4);
    let lanes = partition(input.clone(), 1);
    assert_eq!(lanes.len(), 1);
    assert_eq!(lanes[0], input);
}
