use canopy::pathfinding::find_path;

fn tile(x: u32, z: u32) -> u32 {
    z * 65_536 + x
}

#[test]
fn empty_endpoints_give_no_path() {
    assert!(find_path(&[1, 2], &[], &[2]).is_empty());
    assert!(find_path(&[1, 2], &[1], &[]).is_empty());
}

#[test]
fn start_equal_to_goal_is_a_one_tile_path() {
    assert_eq!(find_path(&[], &[5], &[5]), vec![5]);
}

#[test]
fn follows_directed_edges() {
    let graph = [1, 2, 2, 3, 3, 4];
    assert_eq!(find_path(&graph, &[1], &[4]), vec![1, 2, 3, 4]);
    assert!(find_path(&graph, &[4], &[1]).is_empty());
}

#[test]
fn only_the_first_start_and_goal_count() {
    let graph = [1, 2, 7, 8];
    assert_eq!(find_path(&graph, &[1, 7], &[2, 8]), vec![1, 2]);
    assert!(find_path(&graph, &[7, 1], &[2, 8]).is_empty());
}

#[test]
fn takes_the_short_way_on_a_grid() {
    let a = tile(0, 0);
    let b = tile(1, 0);
    let c = tile(2, 0);
    let d = tile(1, 1);
    let e = tile(5, 5);
    // a -> b -> c directly, or a detour through d and e.
    let graph = [a, b, b, c, a, d, d, e, e, c];
    assert_eq!(find_path(&graph, &[a], &[c]), vec![a, b, c]);
}

#[test]
fn unreachable_goal_gives_no_path_and_odd_item_is_ignored() {
    let graph = [1, 2, 2, 1, 3];
    assert!(find_path(&graph, &[1], &[3]).is_empty());
}

/// All four-neighbour edges of a `w × h` grid, minus the tiles in `walls`.
fn grid(w: u32, h: u32, walls: &[(u32, u32)]) -> Vec<u32> {
    let mut g = Vec::new();
    for z in 0..h {
        for x in 0..w {
            if walls.contains(&(x, z)) {
                continue;
            }
            let steps: [(i64, i64); 4] = [(1, 0), (-1, 0), (0, 1), (0, -1)];
            for (dx, dz) in steps {
                let nx = x as i64 + dx;
                let nz = z as i64 + dz;
                if nx < 0 || nz < 0 || nx >= w as i64 || nz >= h as i64 {
                    continue;
                }
                if walls.contains(&(nx as u32, nz as u32)) {
                    continue;
                }
                g.push(tile(x, z));
                g.push(tile(nx as u32, nz as u32));
            }
        }
    }
    g
}

#[test]
fn grid_paths_are_shortest() {
    let g = grid(4, 4, &[]);
    let path = find_path(&g, &[tile(0, 0)], &[tile(3, 3)]);
    assert_eq!(path.len(), 7);
    assert_eq!(path[0], tile(0, 0));
    assert_eq!(*path.last().unwrap(), tile(3, 3));
}

#[test]
fn grid_paths_go_around_walls_by_the_shortest_way() {
    // A wall across x = 2 except at the top row forces a detour.
    let g = grid(5, 5, &[(2, 0), (2, 1), (2, 2), (2, 3)]);
    let path = find_path(&g, &[tile(0, 0)], &[tile(4, 0)]);
    // Up 4, across 4, down 4: 12 edges.
    assert_eq!(path.len(), 13);
    for w in path.windows(2) {
        let (ax, az) = (w[0] % 65_536, w[0] / 65_536);
        let (bx, bz) = (w[1] % 65_536, w[1] / 65_536);
        assert_eq!(ax.abs_diff(bx) + az.abs_diff(bz), 1);
    }
}

#[test]
fn walled_off_goal_is_unreachable() {
    let g = grid(3, 3, &[(1, 0), (1, 1), (1, 2)]);
    assert!(find_path(&g, &[tile(0, 0)], &[tile(2, 2)]).is_empty());
}

#[test]
fn path_through_a_cycle_repeats_no_tile() {
    // 1 -> 2 -> 3 -> 1 (a cycle), and 3 -> 4.
    let graph = [1, 2, 2, 3, 3, 1, 3, 4, 2, 1];
    let path = find_path(&graph, &[1], &[4]);
    assert_eq!(path, vec![1, 2, 3, 4]);
    let mut seen = path.clone();
    seen.sort();
    seen.dedup();
    assert_eq!(seen.len(), path.len());
}
