use snake_game::board::GameMap;
use snake_game::string_rep::{element_char, game_char};
use snake_game::{Direction, Element, ElementKind, Game, Position, Rolls, Snake};

fn pos(x: i32, y: i32) -> Position {
    Position { x, y }
}

fn bare_game(w: usize, h: usize) -> Game {
    let mut g = Game::new(w, h);
    g.map.elements.clear();
    g
}

fn quiet_rolls() -> Rolls {
    Rolls { obstacle: 1, rock: 9, obstacle_cell: 0, lifetime: 30_000, apple_cell: 0 }
}

fn apple_count(g: &Game) -> usize {
    g.map.elements.iter().filter(|e| e.kind == ElementKind::Apple).count()
}

#[test]
fn turning_refuses_only_reversal() {
    let all = [Direction::Up, Direction::Down, Direction::Left, Direction::Right];
    for c in all.iter() {
        for d in all.iter() {
            let mut g = bare_game(10, 10);
            g.snake = Snake::from_cells(vec![pos(5, 5)], *c);
            g.change_dir(*d);
            let reversal = matches!(
                (*c, *d),
                (Direction::Left, Direction::Right)
                    | (Direction::Right, Direction::Left)
                    | (Direction::Up, Direction::Down)
                    | (Direction::Down, Direction::Up)
            );
            let expected = if reversal { *c } else { *d };
            assert_eq!(g.snake.direction(), expected);
        }
    }
}

#[test]
fn new_game_centres_snake_and_places_one_apple() {
    let g = Game::new(10, 10);
    assert_eq!(g.snake.get(0), Some(&pos(5, 5)));
    assert_eq!(g.snake.len(), 1);
    assert_eq!(g.snake.direction(), Direction::Left);
    assert_eq!(g.score, 0);
    assert_eq!(g.speedups, 0);
    assert_eq!(g.map.elements.len(), 1);
    let a = g.map.elements[0];
    assert_eq!(a.kind, ElementKind::Apple);
    assert_ne!(a.pos, pos(5, 5));
    assert!(a.pos.x >= 0 && a.pos.x < 10 && a.pos.y >= 0 && a.pos.y < 10);
}

#[test]
fn one_cell_board_has_no_room_for_an_apple() {
    let g = Game::new(1, 1);
    assert_eq!(g.snake.get(0), Some(&pos(0, 0)));
    assert!(g.map.elements.is_empty());
}

#[test]
fn grass_step_moves_head_only() {
    let mut g = bare_game(10, 10);
    g.snake = Snake::from_cells(vec![pos(5, 5), pos(6, 5), pos(7, 5)], Direction::Up);
    assert!(g.next_with(500, quiet_rolls()));
    assert_eq!(g.snake.len(), 3);
    assert_eq!(g.score, 0);
    assert_eq!(g.snake.get(0), Some(&pos(5, 4)));
    assert_eq!(g.snake.get(1), Some(&pos(5, 5)));
    assert_eq!(g.snake.get(2), Some(&pos(6, 5)));
    assert_eq!(g.snake.get(3), None);
}

#[test]
fn apple_step_grows_scores_and_spawns() {
    let mut g = bare_game(4, 3);
    g.place_apple(pos(1, 1));
    let rolls = Rolls { obstacle: 0, rock: 3, obstacle_cell: 0, lifetime: 30_000, apple_cell: 1 };
    assert!(g.next_with(500, rolls));
    assert_eq!(g.score, 20);
    assert_eq!(g.snake.len(), 2);
    assert_eq!(g.snake.get(0), Some(&pos(1, 1)));
    assert_eq!(g.snake.get(1), Some(&pos(2, 1)));
    assert_eq!(g.speedups, 0);
    assert_eq!(
        g.map.elements,
        vec![
            Element { pos: pos(0, 0), time_left: 29_500, kind: ElementKind::Rock },
            Element { pos: pos(1, 0), time_left: 999_500, kind: ElementKind::Apple },
        ]
    );
    assert_eq!(apple_count(&g), 1);
}

#[test]
fn apple_step_without_obstacle_places_apple_by_roll() {
    let mut g = bare_game(4, 3);
    g.place_apple(pos(1, 1));
    let rolls = Rolls { obstacle: 1, rock: 0, obstacle_cell: 0, lifetime: 30_000, apple_cell: 5 };
    assert!(g.next_with(0, rolls));
    // free cells: (0,0) (1,0) (2,0) (3,0) (0,1) (3,1) (0,2) ...; the sixth is (3,1)
    assert_eq!(
        g.map.elements,
        vec![Element { pos: pos(3, 1), time_left: 1_000_000, kind: ElementKind::Apple }]
    );
    assert!(!g.snake.is_at(pos(3, 1), true));
}

#[test]
fn apple_step_raises_pace_on_multiple_of_three() {
    let mut g = bare_game(4, 3);
    g.score = 1;
    g.place_apple(pos(1, 1));
    assert!(g.next_with(0, quiet_rolls()));
    assert_eq!(g.score, 21);
    assert_eq!(g.speedups, 1);
}

#[test]
fn obstacle_kind_follows_roll() {
    let mut g = bare_game(4, 3);
    g.place_apple(pos(1, 1));
    let rolls = Rolls { obstacle: 5, rock: 4, obstacle_cell: 1, lifetime: 60_000, apple_cell: 0 };
    assert!(g.next_with(0, rolls));
    assert_eq!(
        g.map.elements[0],
        Element { pos: pos(1, 0), time_left: 60_000, kind: ElementKind::Bush }
    );
    assert_eq!(g.map.elements[1].kind, ElementKind::Apple);
    assert_eq!(g.map.elements[1].pos, pos(0, 0));
}

#[test]
fn bush_step_costs_points_and_removes_bush() {
    let mut g = bare_game(4, 3);
    g.map.add(Element { pos: pos(1, 1), time_left: 40_000, kind: ElementKind::Bush });
    assert!(g.next_with(100, quiet_rolls()));
    assert_eq!(g.score, -5);
    assert_eq!(g.snake.len(), 1);
    assert_eq!(g.snake.get(0), Some(&pos(1, 1)));
    assert!(g.map.elements.is_empty());
}

#[test]
fn rock_ends_the_game() {
    let mut g = bare_game(4, 3);
    g.map.add(Element { pos: pos(1, 1), time_left: 40_000, kind: ElementKind::Rock });
    assert!(!g.next_with(100, quiet_rolls()));
    assert!(g.over);
    assert_eq!(g.snake.get(0), Some(&pos(2, 1)));
    assert_eq!(g.map.elements[0].time_left, 40_000);
}

#[test]
fn game_over_lasts() {
    let mut g = bare_game(10, 10);
    g.snake = Snake::from_cells(vec![pos(0, 5)], Direction::Left);
    assert!(!g.next(500));
    assert!(g.over);
    g.change_dir(Direction::Up);
    assert!(!g.next(500));
    assert!(!g.next_with(500, quiet_rolls()));
    assert_eq!(g.snake.get(0), Some(&pos(0, 5)));
    assert_eq!(g.snake.len(), 1);
    assert_eq!(g.score, 0);
    assert!(g.over);
}

#[test]
fn obstacle_replaces_what_stood_on_its_cell() {
    let mut g = bare_game(4, 3);
    g.map.add(Element { pos: pos(0, 0), time_left: 7, kind: ElementKind::Bush });
    g.place_apple(pos(1, 1));
    let rolls = Rolls { obstacle: 0, rock: 0, obstacle_cell: 0, lifetime: 45_000, apple_cell: 1 };
    assert!(g.next_with(0, rolls));
    assert_eq!(
        g.map.elements,
        vec![
            Element { pos: pos(0, 0), time_left: 45_000, kind: ElementKind::Rock },
            Element { pos: pos(1, 0), time_left: 1_000_000, kind: ElementKind::Apple },
        ]
    );
}

#[test]
fn new_apple_takes_last_cell_off_the_snake() {
    let mut g = bare_game(3, 1);
    g.snake = Snake::from_cells(vec![pos(1, 0)], Direction::Right);
    g.map.add(Element { pos: pos(0, 0), time_left: 50_000, kind: ElementKind::Rock });
    g.place_apple(pos(2, 0));
    assert!(g.next_with(0, quiet_rolls()));
    assert_eq!(
        g.map.elements,
        vec![Element { pos: pos(0, 0), time_left: 1_000_000, kind: ElementKind::Apple }]
    );
}

#[test]
fn full_board_leaves_no_apple() {
    let mut g = bare_game(2, 1);
    assert_eq!(g.snake.get(0), Some(&pos(1, 0)));
    g.place_apple(pos(0, 0));
    assert!(g.next_with(0, quiet_rolls()));
    assert_eq!(g.snake.len(), 2);
    assert!(g.map.elements.is_empty());
}

#[test]
fn widest_board_centres_snake() {
    let g = Game::new(131_071, 1);
    assert_eq!(g.snake.get(0), Some(&pos(65_535, 0)));
    assert_eq!(g.map.elements.len(), 1);
    assert_eq!(g.map.elements[0].kind, ElementKind::Apple);
    assert_ne!(g.map.elements[0].pos, pos(65_535, 0));
}

#[test]
fn self_collision_ends_the_game_unchanged() {
    let mut g = bare_game(10, 10);
    let cells = vec![pos(3, 3), pos(3, 4), pos(4, 4), pos(4, 3), pos(5, 3)];
    g.snake = Snake::from_cells(cells.clone(), Direction::Right);
    g.map.add(Element { pos: pos(9, 9), time_left: 10, kind: ElementKind::Bush });
    assert!(!g.next_with(1_000, quiet_rolls()));
    for (i, c) in cells.iter().enumerate() {
        assert_eq!(g.snake.get(i), Some(c));
    }
    assert_eq!(g.snake.direction(), Direction::Right);
    assert_eq!(g.map.elements.len(), 1);
    assert_eq!(g.map.elements[0].time_left, 10);
    assert_eq!(g.score, 0);
}

#[test]
fn moving_onto_vacating_tail_is_allowed() {
    let mut g = bare_game(10, 10);
    g.snake = Snake::from_cells(vec![pos(3, 3), pos(3, 4), pos(4, 4), pos(4, 3)], Direction::Right);
    assert!(g.next_with(0, quiet_rolls()));
    assert_eq!(g.snake.get(0), Some(&pos(4, 3)));
    assert_eq!(g.snake.len(), 4);
}

#[test]
fn leaving_the_board_ends_the_game() {
    for (start, d) in [
        (pos(0, 5), Direction::Left),
        (pos(9, 5), Direction::Right),
        (pos(5, 0), Direction::Up),
        (pos(5, 9), Direction::Down),
    ]
    .iter()
    {
        let mut g = bare_game(10, 10);
        g.snake = Snake::from_cells(vec![*start], *d);
        assert!(!g.next_with(0, quiet_rolls()));
        assert_eq!(g.snake.get(0), Some(start));
    }
}

#[test]
fn obstacles_expire_apples_stay() {
    let mut m = GameMap::new(5, 5);
    m.add(Element { pos: pos(1, 1), time_left: 1_000, kind: ElementKind::Rock });
    m.add(Element { pos: pos(2, 2), time_left: 10, kind: ElementKind::Apple });
    m.update_elements(600);
    assert_eq!(m.elements[0].time_left, 400);
    assert_eq!(m.elements.len(), 2);
    m.update_elements(400);
    assert_eq!(m.elements[0], Element { pos: pos(1, 1), time_left: 0, kind: ElementKind::Rock });
    m.update_elements(1);
    assert_eq!(
        m.elements,
        vec![Element { pos: pos(2, 2), time_left: 0, kind: ElementKind::Apple }]
    );
}

#[test]
fn board_queries() {
    let mut m = GameMap::new(4, 3);
    m.add(Element { pos: pos(1, 1), time_left: 5, kind: ElementKind::Rock });
    m.add(Element { pos: pos(2, 1), time_left: 5, kind: ElementKind::Bush });
    m.add(Element { pos: pos(1, 1), time_left: 5, kind: ElementKind::Apple });
    assert_eq!(m.elem_at_pos(pos(1, 1)), Some(ElementKind::Rock));
    assert_eq!(m.elem_at_pos(pos(2, 1)), Some(ElementKind::Bush));
    assert_eq!(m.elem_at_pos(pos(0, 0)), Some(ElementKind::Grass));
    assert_eq!(m.elem_at_pos(pos(-1, 0)), None);
    assert_eq!(m.elem_at_pos(pos(4, 0)), None);
    assert_eq!(m.elem_at_pos(pos(0, 3)), None);
    m.delete_at(pos(1, 1));
    assert_eq!(m.elements.len(), 1);
    assert_eq!(m.elements[0].kind, ElementKind::Bush);
    assert_eq!(m.elem_at_pos(pos(1, 1)), Some(ElementKind::Grass));
}

#[test]
fn free_cells_row_by_row() {
    let mut g = bare_game(2, 2);
    assert_eq!(g.free_cells(), vec![pos(0, 0), pos(1, 0), pos(0, 1)]);
    assert_eq!(g.pick_free_cell(0), Some(pos(0, 0)));
    assert_eq!(g.pick_free_cell(1), Some(pos(1, 0)));
    assert_eq!(g.pick_free_cell(2), Some(pos(0, 1)));
    assert_eq!(g.pick_free_cell(3), Some(pos(0, 0)));
    g.map.add(Element { pos: pos(1, 0), time_left: 5, kind: ElementKind::Rock });
    assert_eq!(g.free_cells(), vec![pos(0, 0), pos(1, 0), pos(0, 1)]);
    g.snake = Snake::from_cells(vec![pos(0, 0), pos(0, 1), pos(1, 1)], Direction::Up);
    assert_eq!(g.pick_free_cell(7), Some(pos(1, 0)));
    g.snake = Snake::from_cells(vec![pos(0, 0), pos(0, 1), pos(1, 1), pos(1, 0)], Direction::Up);
    assert_eq!(g.pick_free_cell(7), None);
}

#[test]
fn snake_queries() {
    let s = Snake::from_cells(vec![pos(1, 1), pos(2, 1), pos(3, 1)], Direction::Left);
    assert!(s.is_at(pos(3, 1), true));
    assert!(!s.is_at(pos(3, 1), false));
    assert!(s.is_at(pos(2, 1), false));
    assert!(!s.is_at(pos(0, 0), true));
    assert_eq!(s.next_pos(), pos(0, 1));
    let mut t = Snake::new(4, 7);
    assert_eq!(t.get(0), Some(&pos(4, 7)));
    t.move_apple(pos(3, 7));
    assert_eq!(t.len(), 2);
    t.move_neutral(pos(2, 7));
    assert_eq!(t.len(), 2);
    assert_eq!(t.get(0), Some(&pos(2, 7)));
    assert_eq!(t.get(1), Some(&pos(3, 7)));
}

#[test]
fn fresh_game_renders_head_and_apple_only() {
    let g = Game::new(10, 10);
    let text = g.to_string();
    let lines: Vec<&str> = text.split('\n').collect();
    assert_eq!(lines.len(), 10);
    let mut apples = 0;
    for (y, line) in lines.iter().enumerate() {
        let chars: Vec<char> = line.chars().collect();
        assert_eq!(chars.len(), 10);
        for (x, c) in chars.iter().enumerate() {
            assert_eq!(*c, game_char(&g, pos(x as i32, y as i32)));
            if x == 5 && y == 5 {
                assert_eq!(*c, '<');
            } else if *c == '@' {
                apples += 1;
            } else {
                assert_eq!(*c, ' ');
            }
        }
    }
    assert_eq!(apples, 1);
}

#[test]
fn rendering_paints_snake_over_elements() {
    let mut g = bare_game(3, 2);
    g.map.add(Element { pos: pos(0, 0), time_left: 5, kind: ElementKind::Rock });
    g.map.add(Element { pos: pos(2, 0), time_left: 5, kind: ElementKind::Bush });
    g.map.add(Element { pos: pos(1, 1), time_left: 5, kind: ElementKind::Apple });
    g.snake = Snake::from_cells(vec![pos(1, 1), pos(0, 1)], Direction::Right);
    assert_eq!(g.to_string(), "# +\n■> ");
    assert_eq!(game_char(&g, pos(1, 1)), '>');
    assert_eq!(game_char(&g, pos(0, 1)), '■');
    assert_eq!(game_char(&g, pos(0, 0)), '#');
    assert_eq!(game_char(&g, pos(1, 0)), ' ');
    g.change_dir(Direction::Up);
    assert_eq!(game_char(&g, pos(1, 1)), '∧');
}

#[test]
fn element_glyphs() {
    let e = |kind| Element { pos: pos(0, 0), time_left: 0, kind };
    assert_eq!(element_char(&e(ElementKind::Apple)), '@');
    assert_eq!(element_char(&e(ElementKind::Bush)), '+');
    assert_eq!(element_char(&e(ElementKind::Rock)), '#');
    assert_eq!(element_char(&e(ElementKind::Grass)), '.');
}
