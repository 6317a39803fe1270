use bevy_turborand::prelude::GlobalRng;
use color_combine::color::{CircleGroup, Hsla};
use color_combine::drag::{Dragging, PointerButton};
use color_combine::placement::Point;
use color_combine::scene::{Scene, NUM};

fn red() -> Hsla {
    Hsla::hsla(0, 10000, 7000, 7000)
}

fn blue() -> Hsla {
    Hsla::hsla(2400, 10000, 7000, 7000)
}

fn green() -> Hsla {
    Hsla::hsla(1200, 5000, 8000, 7000)
}

fn free(s: &Scene, i: usize) -> bool {
    s.is_eligible(i)
}

#[test]
fn circles_just_inside_twice_radius_group() {
    let mut s = Scene::new();
    s.spawn_circle(0, 0, red());
    s.spawn_circle(79, 0, blue());
    s.circles_intersect();
    assert_eq!(s.len(), 3);
    assert!(!free(&s, 0) && !free(&s, 1));
}

#[test]
fn circles_just_outside_twice_radius_stay() {
    let mut s = Scene::new();
    s.spawn_circle(0, 0, red());
    s.spawn_circle(81, 0, blue());
    s.circles_intersect();
    assert_eq!(s.len(), 2);
    assert!(free(&s, 0) && free(&s, 1));
}

#[test]
fn circles_touching_do_not_group() {
    let mut s = Scene::new();
    s.spawn_circle(-40, 10, red());
    s.spawn_circle(40, 10, blue());
    s.circles_intersect();
    assert_eq!(s.len(), 2);
}

#[test]
fn diagonal_overlap_groups() {
    let mut s = Scene::new();
    s.spawn_circle(0, 0, red());
    s.spawn_circle(56, 56, blue());
    s.circles_intersect();
    assert_eq!(s.len(), 3);
}

#[test]
fn grouping_sets_members_colors_and_drag() {
    let mut s = Scene::new();
    let a = s.spawn_circle(0, 0, red());
    let b = s.spawn_circle(10, 10, blue());
    s.circles_intersect();
    let g = 2;
    let expected = CircleGroup::from_colors(red(), blue()).combined_color;
    assert_eq!(expected, Hsla::hsla(2400, 20000, 7000, 14000));
    for m in [a, b] {
        assert!(!s.node(m).draggable);
        assert_eq!(s.node(m).parent, Some(g));
        assert_eq!(s.node(m).shown_color, Some(expected));
    }
    assert_eq!(s.node(a).x, 0);
    assert_eq!(s.node(b).y, 10);
    let group = s.node(g);
    assert!(group.draggable);
    assert_eq!((group.x, group.y), (0, 0));
    assert_eq!(group.parent, None);
    assert_eq!(group.members, Some((a, b)));
    assert_eq!(group.base_color, None);
    let colors = group.group.unwrap();
    assert_eq!(colors.combined_color, expected);
    assert_eq!(colors.individual_colors, (red(), blue()));
}

#[test]
fn group_pair_directly() {
    let mut s = Scene::new();
    s.spawn_circle(0, 0, red());
    s.spawn_circle(300, 0, blue());
    s.spawn_circle(-300, 0, green());
    let g = s.group_pair(2, 0);
    assert_eq!(g, 3);
    assert_eq!(s.node(3).members, Some((2, 0)));
    assert!(free(&s, 1));
    assert!(!free(&s, 0) && !free(&s, 2));
    assert_eq!(s.node(0).shown_color, s.node(2).shown_color);
    assert_eq!(s.node(1).shown_color, Some(blue()));
}

#[test]
fn circle_is_grouped_once_per_pass() {
    let mut s = Scene::new();
    s.spawn_circle(0, 0, red());
    s.spawn_circle(30, 0, blue());
    s.spawn_circle(60, 0, green());
    s.circles_intersect();
    assert_eq!(s.len(), 4);
    assert_eq!(s.node(3).members, Some((0, 1)));
    assert!(free(&s, 2));
    assert_eq!(s.node(2).shown_color, Some(green()));
}

#[test]
fn grouped_circles_are_not_checked_again() {
    let mut s = Scene::new();
    s.spawn_circle(0, 0, red());
    s.spawn_circle(30, 0, blue());
    s.circles_intersect();
    s.circles_intersect();
    assert_eq!(s.len(), 3);
}

#[test]
fn four_circles_form_two_groups() {
    let mut s = Scene::new();
    s.spawn_circle(0, 0, red());
    s.spawn_circle(1000, 0, blue());
    s.spawn_circle(10, 0, green());
    s.spawn_circle(1010, 0, red());
    s.circles_intersect();
    assert_eq!(s.len(), 6);
    assert_eq!(s.node(4).members, Some((0, 2)));
    assert_eq!(s.node(5).members, Some((1, 3)));
}

#[test]
fn drag_snaps_to_cursor() {
    let mut s = Scene::new();
    s.spawn_circle(5, 5, red());
    let mut d = Dragging::new();
    d.drag_start(true, &vec![0], &s);
    assert_eq!(d.entity, Some(0));
    d.drag(true, Some((123, -45)), &mut s);
    assert_eq!((s.node(0).x, s.node(0).y), (123, -45));
    d.dropped(true);
    assert_eq!(d.entity, None);
    d.drag(true, Some((1, 1)), &mut s);
    assert_eq!((s.node(0).x, s.node(0).y), (123, -45));
}

#[test]
fn drag_needs_press_and_cursor() {
    let mut s = Scene::new();
    s.spawn_circle(5, 5, red());
    let mut d = Dragging::new();
    d.drag_start(false, &vec![0], &s);
    assert_eq!(d.entity, None);
    d.drag_start(true, &vec![0], &s);
    d.drag(true, None, &mut s);
    assert_eq!((s.node(0).x, s.node(0).y), (5, 5));
    d.drag(false, Some((9, 9)), &mut s);
    assert_eq!((s.node(0).x, s.node(0).y), (5, 5));
    d.dropped(false);
    assert_eq!(d.entity, Some(0));
}

#[test]
fn drag_start_picks_first_draggable_hovered() {
    let mut s = Scene::new();
    s.spawn_circle(0, 0, red());
    s.spawn_circle(20, 0, blue());
    s.spawn_circle(500, 0, green());
    s.circles_intersect();
    let mut d = Dragging::new();
    d.drag_start(true, &vec![7, 0, 1, 2, 3], &s);
    assert_eq!(d.entity, Some(2));
    let mut e = Dragging::new();
    e.drag_start(true, &vec![0, 1], &s);
    assert_eq!(e.entity, None);
}

#[test]
fn dragging_group_moves_group_only() {
    let mut s = Scene::new();
    s.spawn_circle(0, 0, red());
    s.spawn_circle(20, 0, blue());
    s.circles_intersect();
    let mut d = Dragging::new();
    d.drag_start(true, &vec![3], &s);
    assert_eq!(d.entity, None);
    d.drag_start(true, &vec![0, 2], &s);
    assert_eq!(d.entity, Some(2));
    d.drag(true, Some((50, 60)), &mut s);
    assert_eq!((s.node(2).x, s.node(2).y), (50, 60));
    assert_eq!((s.node(1).x, s.node(1).y), (20, 0));
}

#[test]
fn at_most_one_entity_dragged() {
    let mut s = Scene::new();
    s.spawn_circle(0, 0, red());
    s.spawn_circle(500, 0, blue());
    let mut d = Dragging::new();
    d.drag_start(true, &vec![0], &s);
    d.drag_start(true, &vec![1], &s);
    assert_eq!(d.entity, Some(1));
    d.drag(true, Some((-7, 8)), &mut s);
    assert_eq!((s.node(0).x, s.node(0).y), (0, 0));
    assert_eq!((s.node(1).x, s.node(1).y), (-7, 8));
}

#[test]
fn seeded_scene_drag_three_onto_seven() {
    let mut rng = GlobalRng::with_seed(20);
    let mut s = Scene::new();
    s.add_circles(&mut rng);
    let n = s.len();
    assert!(n > 7 && n <= NUM);
    for i in 0..n {
        assert!(free(&s, i));
        let c = s.node(i).base_color.unwrap();
        assert!(c.hue < 3600 && c.alpha == 7000);
        for j in i + 1..n {
            let dx = s.node(i).x as i64 - s.node(j).x as i64;
            let dy = s.node(i).y as i64 - s.node(j).y as i64;
            assert!(dx * dx + dy * dy > 80 * 80);
        }
        assert!(-300 <= s.node(i).x && s.node(i).x < 300);
        assert!(-200 <= s.node(i).y && s.node(i).y < 200);
    }
    s.circles_intersect();
    assert_eq!(s.len(), n);

    let mut d = Dragging::new();
    d.drag_start(true, &vec![3], &s);
    let target = (s.node(7).x + 10, s.node(7).y);
    d.drag(true, Some(target), &mut s);
    d.dropped(true);
    s.circles_intersect();

    assert_eq!(s.len(), n + 1);
    let g = n;
    assert_eq!(s.node(g).members, Some((3, 7)));
    let owned: Vec<usize> = (0..s.len()).filter(|&k| s.node(k).parent == Some(g)).collect();
    assert_eq!(owned, vec![3, 7]);
    let combined = CircleGroup::from_colors(
        s.node(3).base_color.unwrap(),
        s.node(7).base_color.unwrap(),
    )
    .combined_color;
    assert!(!s.node(3).draggable && !s.node(7).draggable);
    assert_eq!(s.node(3).shown_color, Some(combined));
    assert_eq!(s.node(7).shown_color, Some(combined));
}

#[test]
fn step_drags_then_groups() {
    let mut s = Scene::new();
    s.spawn_circle(0, 0, red());
    s.spawn_circle(300, 0, blue());
    let mut d = Dragging::new();
    let press = PointerButton { just_pressed: true, pressed: true, just_released: false };
    d.step(press, &vec![0], Some((100, 0)), &mut s);
    assert_eq!(d.entity, Some(0));
    assert_eq!(s.len(), 2);
    let hold = PointerButton { just_pressed: false, pressed: true, just_released: false };
    d.step(hold, &vec![], Some((250, 0)), &mut s);
    assert_eq!(s.len(), 3);
    assert_eq!(s.node(2).members, Some((0, 1)));
    let release = PointerButton { just_pressed: false, pressed: false, just_released: true };
    d.step(release, &vec![], Some((0, 0)), &mut s);
    assert_eq!(d.entity, None);
    assert_eq!((s.node(0).x, s.node(0).y), (250, 0));
}

#[test]
fn earlier_pair_wins_a_shared_circle() {
    let mut s = Scene::new();
    s.spawn_circle(0, 0, red());
    s.spawn_circle(140, 0, blue());
    s.spawn_circle(70, 0, green());
    s.circles_intersect();
    assert_eq!(s.len(), 4);
    assert_eq!(s.node(3).members, Some((0, 2)));
    assert!(free(&s, 1));
}

#[test]
fn spawn_circles_recentres_places() {
    let mut s = Scene::new();
    s.spawn_circle(1, 2, green());
    let places = vec![Point { x: 0, y: 0 }, Point { x: 599, y: 399 }, Point { x: 300, y: 200 }];
    s.spawn_circles(&places, &vec![red(), blue(), green()]);
    assert_eq!(s.len(), 4);
    assert_eq!((s.node(0).x, s.node(0).y), (1, 2));
    assert_eq!((s.node(1).x, s.node(1).y), (-300, -200));
    assert_eq!((s.node(2).x, s.node(2).y), (299, 199));
    assert_eq!((s.node(3).x, s.node(3).y), (0, 0));
    assert_eq!(s.node(2).base_color, Some(blue()));
    assert_eq!(s.node(3).shown_color, Some(green()));
    assert!(free(&s, 1) && free(&s, 2) && free(&s, 3));
}

#[test]
fn add_circles_keeps_existing_and_stays_in_area() {
    let mut rng = GlobalRng::with_seed(5);
    let mut s = Scene::new();
    s.spawn_circle(1000, 1000, red());
    s.add_circles(&mut rng);
    assert!(s.len() > 1 && s.len() <= NUM + 1);
    assert_eq!((s.node(0).x, s.node(0).y), (1000, 1000));
    for i in 1..s.len() {
        let n = s.node(i);
        assert!(-300 <= n.x && n.x < 300 && -200 <= n.y && n.y < 200);
        assert_eq!(n.shown_color, n.base_color);
    }
}
