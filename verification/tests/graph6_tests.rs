use spdkit::graph6::{encode_graph_as_graph6, encode_edges, encode_nodes, graph6_repr_bits, to_u8,
    upper_triangle_index};

#[test]
fn test_graph6_repr() {
    let bits = "1000101100011100";
    let bits: Vec<_> = bits.chars().map(|b| if b == '1' { true } else { false }).collect();
    let s = graph6_repr_bits(&bits);
    assert_eq!(s[0], 97);
    assert_eq!(s[1], 112);
    assert_eq!(s[2], 111);
}

#[test]
fn test_graph6_encode_node_n() {
    let x = encode_nodes(5);
    assert_eq!(x.len(), 1);
    assert_eq!(x[0], 68);

    let values = vec![126, 66, 63, 120];
    let encoded = encode_nodes(12345);
    assert_eq!(values.len(), encoded.len());
    for (a, b) in values.into_iter().zip(encoded.into_iter()) {
        assert_eq!(a, b);
    }

    let values = vec![126, 126, 63, 90, 90, 90, 90, 90];
    let encoded = encode_nodes(460175067);
    assert_eq!(values.len(), encoded.len());
    for (a, b) in values.into_iter().zip(encoded.into_iter()) {
        assert_eq!(a, b);
    }
}

#[test]
fn test_to_u8() {
    let x: Vec<_> = "110000".chars().map(|x| if x == '1' { true } else { false }).collect();
    assert_eq!(to_u8(x), 48);
    let x: Vec<_> = "100010".chars().map(|x| if x == '1' { true } else { false }).collect();
    assert_eq!(to_u8(x), 34);
}

#[test]
fn upper_triangle_order() {
    // (0,1),(0,2),(1,2),(0,3),(1,3),(2,3),...
    assert_eq!(upper_triangle_index(0, 1), 0);
    assert_eq!(upper_triangle_index(0, 2), 1);
    assert_eq!(upper_triangle_index(1, 2), 2);
    assert_eq!(upper_triangle_index(0, 3), 3);
    assert_eq!(upper_triangle_index(1, 3), 4);
    assert_eq!(upper_triangle_index(2, 3), 5);
}

#[test]
fn complete_triangle_graph6() {
    // the complete graph on three nodes encodes as the text "Bw"
    let edges = vec![(0usize, 1usize), (0, 2), (1, 2)];
    let bytes = encode_graph_as_graph6(3, &edges);
    assert_eq!(bytes, vec![66u8, 119u8]);
}

#[test]
fn encoding_is_deterministic() {
    let edges = vec![(0usize, 2usize), (1, 3), (0, 4), (3, 4)];
    let a = encode_graph_as_graph6(5, &edges);
    let b = encode_graph_as_graph6(5, &edges);
    assert_eq!(a, b);
    // the bytes are the characters of the graph6 text "DQc"
    assert_eq!(a, vec![68u8, 81, 99]);
    // the header and the adjacency bytes stand apart
    assert_eq!(a[0], 68);
    assert_eq!(&a[1..], &encode_edges(5, &edges)[..]);
    assert_eq!(encode_edges(5, &edges), vec![81u8, 99]);
}

#[test]
fn distinct_graphs_encode_differently() {
    let e1 = vec![(0usize, 1usize)];
    let e2 = vec![(0usize, 2usize)];
    assert_ne!(encode_graph_as_graph6(3, &e1), encode_graph_as_graph6(3, &e2));
    assert_ne!(encode_nodes(3), encode_nodes(4));
    assert_ne!(encode_nodes(100), encode_nodes(101));
    assert_ne!(encode_nodes(300000), encode_nodes(300001));
}
