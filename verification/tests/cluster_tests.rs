use nurep::cluster::{
    build_cluster, can_normalize, infer_connections, is_near, try_build_cluster, ClusterConfig,
};
use nurep::snapshot::{RawPlanet, TurnSnapshot};
use nurep::state::{Connection, Planet};

fn snapshot(points: &[(i32, (i32, i32))]) -> TurnSnapshot {
    TurnSnapshot {
        planets: points
            .iter()
            .map(|&(id, position)| RawPlanet { id, position, owner_id: 0 })
            .collect(),
        declared_dimensions: (2000, 2000),
    }
}

#[test]
fn default_config_normalizes_and_connects_at_81() {
    let config = ClusterConfig::default();
    assert!(config.normalize);
    assert!(config.infer_connections);
    assert_eq!(config.connection_threshold_sq, 6561);
    assert_eq!(config.declared_dimensions, None);
}

#[test]
fn adjacency_of_three_planets_in_a_row() {
    let s = snapshot(&[(0, (0, 0)), (1, (50, 0)), (2, (100, 0))]);
    let cluster = build_cluster(&s, &ClusterConfig::default());
    assert_eq!(
        cluster.connections,
        vec![Connection { id_a: 0, id_b: 1 }, Connection { id_a: 1, id_b: 2 }]
    );
    assert!(!cluster.connections.iter().any(|c| c.joins(0, 2)));
    assert!(cluster.connections[0].joins(1, 0));
}

#[test]
fn adjacency_boundary_is_inclusive() {
    let at = snapshot(&[(7, (10, 10)), (8, (91, 10))]);
    let cluster = build_cluster(&at, &ClusterConfig::default());
    assert_eq!(cluster.connections, vec![Connection { id_a: 7, id_b: 8 }]);

    let beyond = snapshot(&[(7, (10, 10)), (8, (92, 10))]);
    let cluster = build_cluster(&beyond, &ClusterConfig::default());
    assert!(cluster.connections.is_empty());

    let a = Planet { id: 1, position: (0, 0) };
    assert!(is_near(&a, &Planet { id: 2, position: (0, -81) }, 6561));
    assert!(!is_near(&a, &Planet { id: 2, position: (1, 81) }, 6561));
    assert!(is_near(&a, &Planet { id: 2, position: (57, 57) }, 6561));
    assert!(!is_near(&a, &Planet { id: 2, position: (58, 57) }, 6561));
}

#[test]
fn adjacency_of_far_apart_planets_does_not_overflow() {
    let a = Planet { id: 1, position: (i32::MIN, i32::MIN) };
    let b = Planet { id: 2, position: (i32::MAX, i32::MAX) };
    assert!(!is_near(&a, &b, u64::MAX));
    assert!(is_near(&a, &a, 0));
}

#[test]
fn connections_come_in_input_order() {
    let planets = vec![
        Planet { id: 30, position: (0, 0) },
        Planet { id: 10, position: (10, 0) },
        Planet { id: 20, position: (20, 0) },
        Planet { id: 40, position: (500, 0) },
    ];
    assert_eq!(
        infer_connections(&planets, 6561),
        vec![
            Connection { id_a: 30, id_b: 10 },
            Connection { id_a: 30, id_b: 20 },
            Connection { id_a: 10, id_b: 20 },
        ]
    );
    assert_eq!(infer_connections(&planets, 100), vec![
        Connection { id_a: 30, id_b: 10 },
        Connection { id_a: 10, id_b: 20 },
    ]);
}

#[test]
fn normalization_moves_the_smallest_coordinates_to_zero() {
    let s = snapshot(&[(1, (1200, -40)), (2, (1100, 25)), (3, (1350, 0))]);
    let cluster = build_cluster(&s, &ClusterConfig::default());
    assert_eq!(
        cluster.planets,
        vec![
            Planet { id: 1, position: (100, 0) },
            Planet { id: 2, position: (0, 65) },
            Planet { id: 3, position: (250, 40) },
        ]
    );
    assert_eq!(cluster.dimensions, (250, 65));
    assert_eq!(cluster.planets.iter().map(|p| p.position.0).min(), Some(0));
    assert_eq!(cluster.planets.iter().map(|p| p.position.1).min(), Some(0));
}

#[test]
fn normalization_of_a_single_planet() {
    let s = snapshot(&[(9, (-5, 17))]);
    let cluster = build_cluster(&s, &ClusterConfig::default());
    assert_eq!(cluster.planets, vec![Planet { id: 9, position: (0, 0) }]);
    assert_eq!(cluster.dimensions, (0, 0));
    assert!(cluster.connections.is_empty());
}

#[test]
fn zero_planets_give_an_empty_cluster() {
    let s = snapshot(&[]);
    let cluster = build_cluster(&s, &ClusterConfig::default());
    assert!(cluster.planets.is_empty());
    assert!(cluster.connections.is_empty());
    assert_eq!(cluster.dimensions, (0, 0));

    let declared = ClusterConfig {
        normalize: false,
        declared_dimensions: Some((640, 480)),
        ..ClusterConfig::default()
    };
    assert_eq!(build_cluster(&s, &declared).dimensions, (0, 0));
}

#[test]
fn without_normalization_positions_and_declared_dimensions_stay() {
    let s = snapshot(&[(1, (1200, -40)), (2, (1100, 25))]);
    let config = ClusterConfig {
        normalize: false,
        declared_dimensions: Some((640, 480)),
        ..ClusterConfig::default()
    };
    let cluster = build_cluster(&s, &config);
    assert_eq!(
        cluster.planets,
        vec![Planet { id: 1, position: (1200, -40) }, Planet { id: 2, position: (1100, 25) }]
    );
    assert_eq!(cluster.dimensions, (640, 480));

    let config = ClusterConfig { normalize: false, ..ClusterConfig::default() };
    assert_eq!(build_cluster(&s, &config).dimensions, (2000, 2000));
}

#[test]
fn connections_can_be_switched_off() {
    let s = snapshot(&[(0, (0, 0)), (1, (50, 0))]);
    let config = ClusterConfig { infer_connections: false, ..ClusterConfig::default() };
    assert!(build_cluster(&s, &config).connections.is_empty());
}

#[test]
fn connections_use_normalized_positions_and_the_given_threshold() {
    let s = snapshot(&[(0, (1000, 1000)), (1, (1003, 1004)), (2, (1006, 1008))]);
    let config = ClusterConfig { connection_threshold_sq: 25, ..ClusterConfig::default() };
    let cluster = build_cluster(&s, &config);
    assert_eq!(
        cluster.connections,
        vec![Connection { id_a: 0, id_b: 1 }, Connection { id_a: 1, id_b: 2 }]
    );
    let config = ClusterConfig { connection_threshold_sq: 24, ..ClusterConfig::default() };
    assert!(build_cluster(&s, &config).connections.is_empty());
}

#[test]
fn a_bounding_box_wider_than_32_bits_cannot_be_normalized() {
    assert!(can_normalize(&snapshot(&[])));
    assert!(can_normalize(&snapshot(&[(1, (i32::MIN, 0)), (2, (-1, 0))])));
    assert!(!can_normalize(&snapshot(&[(1, (i32::MIN, 0)), (2, (0, 0))])));
    assert!(!can_normalize(&snapshot(&[(1, (0, -2)), (2, (0, i32::MAX))])));
    let s = snapshot(&[(1, (i32::MIN, 5)), (2, (-1, 5))]);
    let cluster = build_cluster(&s, &ClusterConfig { infer_connections: false, ..ClusterConfig::default() });
    assert_eq!(cluster.dimensions, (i32::MAX, 0));
    assert_eq!(cluster.planets[1].position, (i32::MAX, 0));
}

#[test]
fn cloned_cluster_equals_the_first() {
    let s = snapshot(&[(0, (0, 0)), (1, (50, 0))]);
    let cluster = build_cluster(&s, &ClusterConfig::default());
    assert_eq!(cluster.clone(), cluster);
}

#[test]
fn building_is_refused_only_where_normalization_cannot_be_done() {
    let wide = snapshot(&[(1, (i32::MIN, 0)), (2, (0, 0))]);
    assert_eq!(try_build_cluster(&wide, &ClusterConfig::default()), None);
    let as_it_is = ClusterConfig { normalize: false, ..ClusterConfig::default() };
    let cluster = try_build_cluster(&wide, &as_it_is).unwrap();
    assert_eq!(cluster.planets[0].position, (i32::MIN, 0));
    assert_eq!(cluster.dimensions, (2000, 2000));
    let s = snapshot(&[(0, (0, 0)), (1, (50, 0)), (2, (100, 0))]);
    assert_eq!(
        try_build_cluster(&s, &ClusterConfig::default()),
        Some(build_cluster(&s, &ClusterConfig::default()))
    );
}

#[test]
fn every_connection_refers_to_planets_of_the_cluster() {
    let s = snapshot(&[(5, (0, 0)), (5, (10, 0)), (6, (20, 0)), (7, (500, 500))]);
    let cluster = build_cluster(&s, &ClusterConfig::default());
    assert_eq!(cluster.connections.len(), 3);
    for c in &cluster.connections {
        assert!(cluster.planets.iter().any(|p| p.id == c.id_a));
        assert!(cluster.planets.iter().any(|p| p.id == c.id_b));
    }
}
