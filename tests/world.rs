use snake_game::CyclicSource;
use snake_game::Direction;
use snake_game::GameStatus;
use snake_game::SnakeCell;
use snake_game::World;

fn world(width: usize, spawn_index: usize, draws: Vec<usize>) -> World<CyclicSource> {
    World::new(width, spawn_index, CyclicSource::new(draws))
}

#[test]
fn new_world_spawns_three_cells_heading_right() {
    let w = world(8, 10, vec![40]);
    assert_eq!(w.width(), 8);
    assert_eq!(w.size(), 64);
    assert_eq!(w.snake_cells(), vec![10, 9, 8]);
    assert_eq!(w.snake_head(), 10);
    assert_eq!(w.snake_length(), 3);
    assert_eq!(w.points(), 0);
    assert_eq!(w.reward_cell(), Some(40));
    assert_eq!(w.game_status(), None);
    assert_eq!(w.game_status_text(), "No status");
}

#[test]
fn new_world_never_places_reward_on_snake() {
    let w = world(8, 10, vec![9, 10, 8, 17]);
    assert_eq!(w.reward_cell(), Some(17));
}

#[test]
fn step_before_start_changes_nothing() {
    let mut w = world(8, 10, vec![40]);
    w.step();
    assert_eq!(w.snake_cells(), vec![10, 9, 8]);
    assert_eq!(w.game_status(), None);
}

#[test]
fn step_moves_snake_one_cell_right() {
    let mut w = world(8, 10, vec![40]);
    w.start_game();
    assert_eq!(w.game_status(), Some(GameStatus::Played));
    assert_eq!(w.game_status_text(), "Playing...");
    w.step();
    assert_eq!(w.snake_head(), 11);
    assert_eq!(w.snake_cells(), vec![11, 10, 9]);
    assert_eq!(w.game_status(), Some(GameStatus::Played));
    assert_eq!(w.points(), 0);
    assert_eq!(w.reward_cell(), Some(40));
}

#[test]
fn eating_reward_scores_grows_and_moves_reward() {
    let mut w = world(8, 10, vec![11, 50]);
    assert_eq!(w.reward_cell(), Some(11));
    w.start_game();
    w.step();
    assert_eq!(w.points(), 1);
    assert_eq!(w.snake_length(), 4);
    assert_eq!(w.snake_cells(), vec![11, 10, 9, 10]);
    assert_eq!(w.reward_cell(), Some(50));
    assert_eq!(w.game_status(), Some(GameStatus::Played));
    w.step();
    assert_eq!(w.snake_cells(), vec![12, 11, 10, 9]);
}

#[test]
fn new_reward_avoids_grown_body() {
    let mut w = world(8, 10, vec![11, 10, 11, 9, 30]);
    w.start_game();
    w.step();
    let reward = w.reward_cell().unwrap();
    assert_eq!(reward, 30);
    assert!(!w.snake_cells().contains(&reward));
}

#[test]
fn eating_last_reward_on_full_board_wins() {
    // A board of four cells: the snake fills three, the reward the fourth.
    let mut w = world(2, 3, vec![0]);
    assert_eq!(w.reward_cell(), Some(0));
    w.start_game();
    w.change_snake_direction(Direction::Up);
    w.step();
    assert_eq!(w.snake_cells(), vec![1, 3, 2]);
    w.change_snake_direction(Direction::Left);
    w.step();
    assert_eq!(w.points(), 1);
    assert_eq!(w.snake_cells(), vec![0, 1, 3, 1]);
    assert_eq!(w.reward_cell(), Some(2));
    w.change_snake_direction(Direction::Down);
    w.step();
    assert_eq!(w.reward_cell(), None);
    assert_eq!(w.game_status(), Some(GameStatus::Won));
    assert_eq!(w.game_status_text(), "Won");
    assert_eq!(w.points(), 1);
    assert_eq!(w.snake_cells(), vec![2, 0, 1, 3, 0]);
    w.step();
    w.step();
    assert_eq!(w.snake_cells(), vec![2, 0, 1, 3, 0]);
    assert_eq!(w.game_status(), Some(GameStatus::Won));
    assert_eq!(w.reward_cell(), None);
    assert_eq!(w.points(), 1);
}

#[test]
fn running_into_own_body_loses() {
    // On a board two cells wide, heading right from 3 leads onto 2, the neck.
    let mut w = world(2, 3, vec![0]);
    w.start_game();
    w.step();
    assert_eq!(w.game_status(), Some(GameStatus::Lost));
    assert_eq!(w.game_status_text(), "Lost");
    assert_eq!(w.snake_cells(), vec![2, 3, 2]);
    assert_eq!(w.snake_length(), 3);
    assert_eq!(w.points(), 0);
    assert_eq!(w.reward_cell(), Some(0));
}

#[test]
fn lost_game_stays_lost() {
    let mut w = world(2, 3, vec![0]);
    w.start_game();
    w.step();
    w.step();
    assert_eq!(w.snake_cells(), vec![2, 3, 2]);
    w.start_game();
    assert_eq!(w.game_status(), Some(GameStatus::Lost));
    w.step();
    assert_eq!(w.snake_cells(), vec![2, 3, 2]);
}

#[test]
fn start_game_twice_keeps_playing() {
    let mut w = world(8, 10, vec![40]);
    w.start_game();
    w.start_game();
    assert_eq!(w.game_status(), Some(GameStatus::Played));
}

#[test]
fn right_edge_wraps_to_first_column() {
    let mut w = world(5, 4, vec![10]);
    w.start_game();
    w.step();
    assert_eq!(w.snake_head(), 0);
    assert_eq!(w.snake_cells(), vec![0, 4, 3]);
}

#[test]
fn left_edge_wraps_to_last_column() {
    let mut w = world(4, 4, vec![10]);
    w.start_game();
    w.change_snake_direction(Direction::Left);
    w.step();
    assert_eq!(w.snake_head(), 7);
}

#[test]
fn top_edge_wraps_to_last_row() {
    let mut w = world(4, 2, vec![10]);
    w.start_game();
    w.change_snake_direction(Direction::Up);
    w.step();
    assert_eq!(w.snake_head(), 14);
}

#[test]
fn bottom_edge_wraps_to_first_row() {
    let mut w = world(4, 14, vec![5]);
    w.start_game();
    w.change_snake_direction(Direction::Down);
    w.step();
    assert_eq!(w.snake_head(), 2);
}

#[test]
fn reversal_onto_neck_is_ignored() {
    let mut w = world(4, 2, vec![5]);
    w.start_game();
    w.change_snake_direction(Direction::Up);
    w.step();
    assert_eq!(w.snake_cells(), vec![14, 2, 1]);
    // Down from 14 leads back onto 2: refused, the snake keeps heading up.
    w.change_snake_direction(Direction::Down);
    w.step();
    assert_eq!(w.snake_cells(), vec![10, 14, 2]);
}

#[test]
fn reversal_against_heading_is_ignored() {
    let mut w = world(8, 10, vec![40]);
    w.start_game();
    w.change_snake_direction(Direction::Left);
    w.step();
    assert_eq!(w.snake_cells(), vec![11, 10, 9]);
}

#[test]
fn turn_is_taken_on_next_step() {
    let mut w = world(8, 10, vec![40]);
    w.change_snake_direction(Direction::Down);
    assert_eq!(w.snake_head(), 10);
    w.start_game();
    w.step();
    assert_eq!(w.snake_cells(), vec![18, 10, 9]);
    w.step();
    assert_eq!(w.snake_cells(), vec![26, 18, 10]);
}

#[test]
fn index_and_cell_convert_both_ways() {
    let w = world(8, 10, vec![40]);
    assert_eq!(w.index_to_cell(10), (1, 2));
    assert_eq!(w.index_to_cell(63), (7, 7));
    assert_eq!(w.cell_to_index(1, 2), 10);
    for row in 0..8 {
        for col in 0..8 {
            let index = w.cell_to_index(row, col);
            assert!(index < 64);
            assert_eq!(w.index_to_cell(index), (row, col));
        }
    }
    for index in 0..64 {
        let (row, col) = w.index_to_cell(index);
        assert_eq!(w.cell_to_index(row, col), index);
    }
}

#[test]
fn reward_skips_occupied_draws() {
    let body = vec![SnakeCell(1), SnakeCell(2)];
    let mut source = CyclicSource::new(vec![1, 2, 6]);
    assert_eq!(World::generate_reward_cell(8, &body, &mut source), Some(6));
}

#[test]
fn reward_on_near_full_board_takes_the_free_cell() {
    let body = vec![SnakeCell(0), SnakeCell(1), SnakeCell(3)];
    let mut source = CyclicSource::new(vec![0, 1, 3]);
    assert_eq!(World::generate_reward_cell(4, &body, &mut source), Some(2));
}

#[test]
fn reward_on_full_board_is_none() {
    let body = vec![SnakeCell(0), SnakeCell(1), SnakeCell(2), SnakeCell(3)];
    let mut source = CyclicSource::new(vec![0, 1, 2, 3]);
    assert_eq!(World::generate_reward_cell(4, &body, &mut source), None);
}

#[test]
fn reward_never_lands_on_body() {
    let body = vec![SnakeCell(4), SnakeCell(5), SnakeCell(6), SnakeCell(7)];
    for seed in 0..16 {
        let mut source = CyclicSource::new(vec![seed, seed + 3, seed * 7]);
        let cell = World::generate_reward_cell(9, &body, &mut source).unwrap();
        assert!(cell < 9);
        assert!(!body.contains(&SnakeCell(cell)));
    }
}
