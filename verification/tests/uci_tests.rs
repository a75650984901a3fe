use nuttchess::uci::{EngineToGui, GuiToEngine, IdType, InfoType, OptionType, PositionType};

fn words(s: &str) -> Vec<String> {
    s.split(' ').map(|t| t.to_string()).collect()
}

#[test]
fn plain_commands() {
    assert!(matches!(GuiToEngine::try_from("uci"), Ok(GuiToEngine::Uci)));
    assert!(matches!(GuiToEngine::try_from("ucinewgame"), Ok(GuiToEngine::UciNewGame)));
    assert!(matches!(GuiToEngine::try_from("isready"), Ok(GuiToEngine::IsReady)));
    assert!(matches!(GuiToEngine::try_from("quit"), Ok(GuiToEngine::Quit)));
    assert!(matches!(GuiToEngine::try_from("go depth 3"), Ok(GuiToEngine::Go)));
    assert!(matches!(GuiToEngine::try_from("uci extra words"), Ok(GuiToEngine::Uci)));
}

#[test]
fn position_commands_keep_the_remaining_words() {
    match GuiToEngine::try_from("position startpos moves e2e4 e7e5") {
        Ok(GuiToEngine::Position(p)) => {
            assert_eq!(p, PositionType::StartPos(words("moves e2e4 e7e5")))
        }
        _ => panic!("expected a startpos position"),
    }
    match GuiToEngine::try_from("position startpos") {
        Ok(GuiToEngine::Position(p)) => assert_eq!(p, PositionType::StartPos(Vec::new())),
        _ => panic!("expected a startpos position"),
    }
    match GuiToEngine::try_from("position fen 8/8/8/8/8/8/8/8 w - - 0 1") {
        Ok(GuiToEngine::Position(p)) => {
            assert_eq!(p, PositionType::FenString(words("8/8/8/8/8/8/8/8 w - - 0 1")))
        }
        _ => panic!("expected a fen position"),
    }
}

#[test]
fn unknown_commands_are_refused() {
    match GuiToEngine::try_from("hello world") {
        Err(e) => assert_eq!(e, "Invalid input hello world"),
        Ok(_) => panic!("expected an error"),
    }
    match GuiToEngine::try_from("position") {
        Err(e) => assert_eq!(e, "Invalid input position"),
        Ok(_) => panic!("expected an error"),
    }
    match GuiToEngine::try_from("") {
        Err(e) => assert_eq!(e, "Invalid input "),
        Ok(_) => panic!("expected an error"),
    }
    // the first word must be the command exactly
    match GuiToEngine::try_from(" uci") {
        Err(e) => assert_eq!(e, "Invalid input  uci"),
        Ok(_) => panic!("expected an error"),
    }
}

#[test]
fn messages_to_the_gui() {
    assert_eq!(EngineToGui::UciOk.to_string(), "uciok");
    assert_eq!(EngineToGui::ReadyOk.to_string(), "readyok");
    assert_eq!(
        EngineToGui::Id(IdType::Name("nuttchess".to_string())).to_string(),
        "id name nuttchess"
    );
    assert_eq!(
        EngineToGui::Id(IdType::Author("UraniumNutt".to_string())).to_string(),
        "id author UraniumNutt"
    );
    assert_eq!(
        EngineToGui::Info(InfoType::Str("depth 3".to_string())).to_string(),
        "info string depth 3"
    );
    assert_eq!(
        EngineToGui::Option(OptionType::Name("Hash".to_string())).to_string(),
        "option name Hash"
    );
}
