use quake_log::error::LogError;
use quake_log::game::Game;
use quake_log::game_match::GameMatch;
use quake_log::means::MeansOfDeath;

const INIT: &str = r#"  0:00 InitGame: \sv_floodProtect\1\sv_maxPing\0\sv_minPing\0\sv_maxRate\10000\sv_minRate\0\sv_hostname\Code Miner Server\g_gametype\0\sv_privateClients\2\sv_maxclients\16\sv_allowDownload\0\dmflags\0\fraglimit\20\timelimit\15\g_maxGameClients\0\capturelimit\8\version\ioq3 1.36 linux-x86_64 Apr 12 2009\protocol\68\mapname\q3dm17\gamename\baseq3\g_needpass\0"#;

#[test]
fn test_handle_line() {
    let mut games: Vec<GameMatch> = vec![];
    let mut current_game = GameMatch::new();

    // line does not contem Kill and not dashes
    assert!(Game::handle_line(r#"20:34 ClientUserinfoChanged: 2 n\Isgalamido\t\0\model\xian/default\hmodel\xian/default\g_redteam\\g_blueteam\\c1\4\c2\5\hc\100\w\0\l\0\tt\0\tl\0"#, &mut current_game, &mut games, 1).is_ok());
    assert_eq!(games.len(), 0);
    assert_eq!(current_game.total_kills, 0);

    // line contain dashes
    assert!(Game::handle_line(
        r#"  0:00 ------------------------------------------------------------"#,
        &mut current_game,
        &mut games,
        1
    )
    .is_ok());
    assert_eq!(games.len(), 0);
    assert_eq!(current_game.total_kills, 0);

    // Line contain InitGame and index is less than 2
    assert!(Game::handle_line(INIT, &mut current_game, &mut games, 1).is_ok());
    assert_eq!(games.len(), 0);
    assert_eq!(current_game.total_kills, 0);

    // Line contain InitGame in the middle of the file
    assert!(Game::handle_line(INIT, &mut current_game, &mut games, 345).is_ok());
    assert_eq!(games.len(), 1);
    assert_eq!(current_game.total_kills, 0);

    // Line does not contain the name of the killer
    assert!(Game::handle_line(
        r#" 20:54 Kill: 1022 2 22:  killed Isgalamido by MOD_TRIGGER_HURT"#,
        &mut current_game,
        &mut games,
        4
    )
    .is_ok());
    // Creates a new game match but does not finish this line of report
    assert_eq!(games.len(), 1);
    assert_eq!(current_game.total_kills, 0);

    // Line does not contain the name of the player killed
    assert!(Game::handle_line(
        r#" 20:54 Kill: 1022 2 22: <world> killed  by MOD_TRIGGER_HURT"#,
        &mut current_game,
        &mut games,
        5
    )
    .is_ok(),);
    assert_eq!(games.len(), 1);
    assert_eq!(current_game.total_kills, 0);

    // Valid line, world kills a player
    assert!(Game::handle_line(
        r#" 20:54 Kill: 1022 2 22: <world> killed Isgalamido by MOD_TRIGGER_HURT"#,
        &mut current_game,
        &mut games,
        6
    )
    .is_ok());
    assert_eq!(games.len(), 1);
    assert_eq!(current_game.total_kills, 1);
    assert_eq!(current_game.players.len(), 1);
    assert!(current_game.players.contains(&"Isgalamido".to_string()));
    assert_eq!(current_game.kills.len(), 0);
    assert_eq!(
        current_game
            .kills_by_means
            .get(&MeansOfDeath::ModTriggerHurt)
            .unwrap()
            .clone(),
        1
    );

    // Valid line, Isgalamido kills a player
    assert!(Game::handle_line(
        r#" 20:54 Kill: 1022 2 22: Isgalamido killed Dono da Bola by MOD_TRIGGER_HURT"#,
        &mut current_game,
        &mut games,
        7
    )
    .is_ok());
    assert_eq!(games.len(), 1);
    assert_eq!(current_game.total_kills, 2);
    assert_eq!(current_game.players.len(), 2);
    assert!(current_game.players.contains(&"Isgalamido".to_string()));
    assert!(current_game.players.contains(&"Dono da Bola".to_string()));
    assert_eq!(current_game.kills.len(), 1);
    assert_eq!(current_game.kills.get("Isgalamido").unwrap().clone(), 1);
    assert_eq!(
        current_game
            .kills_by_means
            .get(&MeansOfDeath::ModTriggerHurt)
            .unwrap()
            .clone(),
        2
    );

    // Valid line, Isgalamido is killed by world and loses 1 kill
    assert!(Game::handle_line(
        r#" 20:54 Kill: 1022 2 22: <world> killed Isgalamido by MOD_FALLING"#,
        &mut current_game,
        &mut games,
        8
    )
    .is_ok());
    assert_eq!(games.len(), 1);
    assert_eq!(current_game.total_kills, 3);
    assert_eq!(current_game.kills.get("Isgalamido").unwrap().clone(), 0);
    assert_eq!(
        current_game
            .kills_by_means
            .get(&MeansOfDeath::ModFalling)
            .unwrap()
            .clone(),
        1
    );

    let previous_game_match = current_game.clone();

    // Initialize another game match
    assert!(Game::handle_line(INIT, &mut current_game, &mut games, 385).is_ok());
    assert_eq!(games.len(), 2);
    assert_eq!(games[1], previous_game_match);
}

#[test]
fn scenario_three_kills_then_boundary() {
    let mut games: Vec<GameMatch> = vec![];
    let mut cur = GameMatch::new();
    let r = Game::handle_line(
        " 20:54 Kill: 1022 2 22: <world> killed Isgalamido by MOD_TRIGGER_HURT",
        &mut cur,
        &mut games,
        6,
    );
    assert_eq!(r, Ok(()));
    assert_eq!(cur.total_kills, 1);
    assert_eq!(cur.players, vec!["Isgalamido".to_string()]);
    assert_eq!(cur.kills.len(), 0);
    assert_eq!(cur.kills_by_means.len(), 1);
    assert_eq!(cur.kills_by_means.get(&MeansOfDeath::ModTriggerHurt), Some(1));

    let r = Game::handle_line(
        " 20:54 Kill: 1022 2 22: Isgalamido killed Dono da Bola by MOD_TRIGGER_HURT",
        &mut cur,
        &mut games,
        7,
    );
    assert_eq!(r, Ok(()));
    assert_eq!(cur.total_kills, 2);
    assert_eq!(cur.players, vec!["Isgalamido".to_string(), "Dono da Bola".to_string()]);
    assert_eq!(cur.kills.len(), 1);
    assert_eq!(cur.kills.get("Isgalamido"), Some(1));
    assert_eq!(cur.kills_by_means.len(), 1);
    assert_eq!(cur.kills_by_means.get(&MeansOfDeath::ModTriggerHurt), Some(2));

    let r = Game::handle_line(
        " 20:54 Kill: 1022 2 22: <world> killed Isgalamido by MOD_FALLING",
        &mut cur,
        &mut games,
        8,
    );
    assert_eq!(r, Ok(()));
    assert_eq!(cur.total_kills, 3);
    assert_eq!(cur.kills.len(), 1);
    assert_eq!(cur.kills.get("Isgalamido"), Some(0));
    assert_eq!(cur.kills_by_means.len(), 2);
    assert_eq!(cur.kills_by_means.get(&MeansOfDeath::ModTriggerHurt), Some(2));
    assert_eq!(cur.kills_by_means.get(&MeansOfDeath::ModFalling), Some(1));
    assert!(games.is_empty());

    let snapshot = cur.clone();
    let r = Game::handle_line(INIT, &mut cur, &mut games, 385);
    assert_eq!(r, Ok(()));
    assert_eq!(games.len(), 1);
    assert_eq!(games[0], snapshot);
    assert_eq!(cur, GameMatch::new());
}

#[test]
fn empty_killer_is_skipped() {
    let mut games: Vec<GameMatch> = vec![];
    let mut cur = GameMatch::new();
    cur.record_kill("A", "B", MeansOfDeath::ModShotgun);
    let before = cur.clone();
    let r = Game::handle_line(
        " 20:54 Kill: 1022 2 22:  killed Isgalamido by MOD_TRIGGER_HURT",
        &mut cur,
        &mut games,
        9,
    );
    assert_eq!(r, Ok(()));
    assert_eq!(cur, before);
    assert!(games.is_empty());
}

#[test]
fn empty_victim_is_skipped() {
    let mut games: Vec<GameMatch> = vec![];
    let mut cur = GameMatch::new();
    let r = Game::handle_line(
        " 20:54 Kill: 1022 2 22: <world> killed  by MOD_TRIGGER_HURT",
        &mut cur,
        &mut games,
        9,
    );
    assert_eq!(r, Ok(()));
    assert_eq!(cur, GameMatch::new());
    assert!(games.is_empty());
}

#[test]
fn lines_without_kill_or_with_divider_change_nothing() {
    let mut games: Vec<GameMatch> = vec![GameMatch::new()];
    let mut cur = GameMatch::new();
    cur.record_kill("A", "B", MeansOfDeath::ModShotgun);
    let before = cur.clone();
    let lines = [
        " 1:47 ClientConnect: 2",
        " 1:47 Item: 2 weapon_rocketlauncher",
        "  0:00 ------------------------------------------------------------",
        " 1:00 Kill: --- A killed B by MOD_SHOTGUN",
        "",
    ];
    for (i, line) in lines.iter().enumerate() {
        assert_eq!(Game::handle_line(line, &mut cur, &mut games, 10 + i), Ok(()));
    }
    assert_eq!(cur, before);
    assert_eq!(games, vec![GameMatch::new()]);
}

#[test]
fn boundary_in_first_three_lines_is_absorbed() {
    let mut games: Vec<GameMatch> = vec![];
    let mut cur = GameMatch::new();
    cur.record_kill("A", "B", MeansOfDeath::ModShotgun);
    let before = cur.clone();
    for pos in 0..3 {
        assert_eq!(Game::handle_line(INIT, &mut cur, &mut games, pos), Ok(()));
    }
    assert!(games.is_empty());
    assert_eq!(cur, before);
    assert_eq!(Game::handle_line(INIT, &mut cur, &mut games, 3), Ok(()));
    assert_eq!(games, vec![before]);
    assert_eq!(cur, GameMatch::new());
}

#[test]
fn kill_line_without_killed_is_malformed() {
    let mut games: Vec<GameMatch> = vec![];
    let mut cur = GameMatch::new();
    let r = Game::handle_line(" 20:54 Kill: 1022 2 22: A shot B", &mut cur, &mut games, 9);
    assert_eq!(r, Err(LogError::MalformedKillLine));
    assert_eq!(cur, GameMatch::new());
}

#[test]
fn kill_line_without_cause_is_an_error() {
    let mut games: Vec<GameMatch> = vec![];
    let mut cur = GameMatch::new();
    let r = Game::handle_line(" 20:54 Kill: 1022 2 22: A killed B", &mut cur, &mut games, 9);
    assert_eq!(r, Err(LogError::MissingCauseOfDeath));
    assert_eq!(cur, GameMatch::new());
}

#[test]
fn unknown_cause_is_an_error_that_carries_the_token() {
    let mut games: Vec<GameMatch> = vec![];
    let mut cur = GameMatch::new();
    let r = Game::handle_line(
        " 20:54 Kill: 1022 2 22: A killed B by MOD_SPOON",
        &mut cur,
        &mut games,
        9,
    );
    assert_eq!(r, Err(LogError::UnrecognizedCause("MOD_SPOON".to_string())));
    assert_eq!(cur, GameMatch::new());
    assert!(games.is_empty());
}

#[test]
fn killer_is_taken_after_the_last_colon_and_trimmed() {
    let mut games: Vec<GameMatch> = vec![];
    let mut cur = GameMatch::new();
    let r = Game::handle_line(
        "  2:11 Kill: 2 4 6:   Zeh \u{3000} killed \t Assasinu Credi  by   MOD_ROCKET_SPLASH  ",
        &mut cur,
        &mut games,
        9,
    );
    assert_eq!(r, Ok(()));
    assert_eq!(cur.players, vec!["Assasinu Credi".to_string(), "Zeh".to_string()]);
    assert_eq!(cur.kills.get("Zeh"), Some(1));
    assert_eq!(cur.kills_by_means.get(&MeansOfDeath::ModRocketSplash), Some(1));
}

fn lines(v: &[&str]) -> Vec<String> {
    v.iter().map(|s| s.to_string()).collect()
}

#[test]
fn run_closes_matches_and_appends_the_open_one() {
    let log = lines(&[
        INIT,
        " 0:25 ClientConnect: 2",
        " 1:00 Kill: 1 2 3: A killed B by MOD_RAILGUN",
        " 1:01 Kill: 1 2 3: <world> killed A by MOD_LAVA",
        INIT,
        " 2:00 Kill: 1 2 3: C killed D by MOD_BFG",
        " 2:01 Kill: 1 2 3: C killed A by MOD_BFG",
    ]);
    let (games, r) = Game::run(&log);
    assert_eq!(r, Ok(()));
    assert_eq!(games.len(), 2);
    assert_eq!(games[0].total_kills, 2);
    assert_eq!(games[0].players, vec!["B".to_string(), "A".to_string()]);
    assert_eq!(games[0].kills.get("A"), Some(0));
    assert_eq!(games[0].kills_by_means.get(&MeansOfDeath::ModRailgun), Some(1));
    assert_eq!(games[0].kills_by_means.get(&MeansOfDeath::ModLava), Some(1));
    assert_eq!(games[1].total_kills, 2);
    assert_eq!(games[1].players, vec!["D".to_string(), "C".to_string(), "A".to_string()]);
    assert_eq!(games[1].kills.get("C"), Some(2));
    assert_eq!(games[1].kills_by_means.get(&MeansOfDeath::ModBfg), Some(2));
}

#[test]
fn run_totals_equal_sum_of_causes() {
    let log = lines(&[
        INIT,
        " 1:00 Kill: 1 2 3: A killed B by MOD_RAILGUN",
        " 1:01 Kill: 1 2 3: <world> killed A by MOD_LAVA",
        " 1:02 Kill: 1 2 3: B killed A by MOD_LAVA",
        INIT,
        " 2:00 Kill: 1 2 3: C killed D by MOD_BFG",
        INIT,
    ]);
    let (games, r) = Game::run(&log);
    assert_eq!(r, Ok(()));
    assert_eq!(games.len(), 3);
    for g in games.iter() {
        let mut sum = 0u32;
        for i in 0..g.kills_by_means.len() {
            sum += g.kills_by_means.entry(i).1;
        }
        assert_eq!(sum, g.total_kills);
    }
    assert_eq!(games[0].total_kills, 3);
    assert_eq!(games[2], GameMatch::new());
}

#[test]
fn run_of_empty_input_gives_one_empty_match() {
    let (games, r) = Game::run(&Vec::new());
    assert_eq!(r, Ok(()));
    assert_eq!(games, vec![GameMatch::new()]);
}

#[test]
fn run_stops_at_the_first_hard_error() {
    let log = lines(&[
        INIT,
        " 1:00 Kill: 1 2 3: A killed B by MOD_RAILGUN",
        " 1:00 Kill: 1 2 3: A killed B by MOD_RAILGUN",
        INIT,
        " 1:01 Kill: 1 2 3: A killed B by MOD_NOPE",
        INIT,
        " 2:00 Kill: 1 2 3: C killed D by MOD_BFG",
    ]);
    let (games, r) = Game::run(&log);
    assert_eq!(r, Err(LogError::UnrecognizedCause("MOD_NOPE".to_string())));
    assert_eq!(games.len(), 1);
    assert_eq!(games[0].total_kills, 2);
}

#[test]
fn game_keeps_its_file_name() {
    let game = Game::new("qgames.log");
    assert_eq!(game.filename(), "qgames.log");
}
