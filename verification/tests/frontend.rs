//! The state behind the graphical frontend.

use mavlog::column::parse_columns;
use mavlog::entry::{EntryKind, LogEntry, LogSourceId, MavlinkVersion};
use mavlog::filter::parse_filters;
use mavlog::gui::choices::{
    choice_of_ids, find_name, ids_of_choice, source_choice, source_from_choice, source_options,
};
use mavlog::gui::columns::ColumnsState;
use mavlog::gui::filters::{row_label, set_enabled, FiltersState};
use mavlog::gui::guard::{Answer, Effect};
use mavlog::gui::moving::{MarkAction, NavKey};
use mavlog::gui::plots::{mark_lines, none_if_blank, series_label, unit_suffix, PlotsState};
use mavlog::gui::rows;
use mavlog::gui::state::GuiState;
use mavlog::gui::windows::{Block, Command};
use mavlog::plot::{series_data, PlotDef, SeriesDef};
use mavlog::session::Session;
use mavlog::time::TimeFormat;
use mavlog::value::Piece;

fn entry(ts_us: u64, sysid: u8, name: &str) -> LogEntry {
    LogEntry {
        timestamp_us: ts_us,
        sysid: Some(sysid),
        compid: Some(1),
        payload: 0..0,
        name: name.to_string(),
        kind: EntryKind::Mavlink { msg_id: 30, version: MavlinkVersion::V2 },
        source: LogSourceId::Primary,
    }
}

fn session() -> Session {
    let entries = vec![
        entry(1_000_000, 1, "HEARTBEAT"),
        entry(2_000_000, 1, "ATTITUDE"),
        entry(3_000_000, 2, "HEARTBEAT"),
        entry(4_000_000, 1, "VFR_HUD"),
    ];
    Session::new("a.tlog".to_string(), Vec::new(), entries, None)
}

fn gui() -> GuiState {
    GuiState::new(Some(session()), None)
}

fn selected(g: &GuiState) -> usize {
    g.session.as_ref().unwrap().selected
}

#[test]
fn title_tells_the_file_and_its_messages() {
    assert_eq!(gui().title(), "a.tlog  —  4 messages");
    assert_eq!(GuiState::new(None, None).title(), "No file open");
}

#[test]
fn navigation_stays_within_the_list() {
    let mut g = gui();
    g.navigate(NavKey::Up, false);
    assert_eq!(selected(&g), 0);
    assert!(g.list.scroll_to_selected);
    g.navigate(NavKey::Down, false);
    assert_eq!(selected(&g), 1);
    g.navigate(NavKey::PageDown, false);
    assert_eq!(selected(&g), 3);
    g.navigate(NavKey::Down, false);
    assert_eq!(selected(&g), 3);
    g.list.visible_rows = 2;
    g.navigate(NavKey::PageUp, false);
    assert_eq!(selected(&g), 1);
    g.list.visible_rows = 0;
    g.navigate(NavKey::PageUp, false);
    assert_eq!(selected(&g), 0);
    g.navigate(NavKey::End, false);
    assert_eq!(selected(&g), 3);
    g.navigate(NavKey::Home, false);
    assert_eq!(selected(&g), 0);
    // A focused widget keeps the keys for itself.
    g.navigate(NavKey::Down, true);
    assert_eq!(selected(&g), 0);
    g.move_selection(isize::MAX);
    assert_eq!(selected(&g), 3);
    g.move_selection(isize::MIN);
    assert_eq!(selected(&g), 0);
    g.move_selection(-1);
    g.move_selection(2);
    assert_eq!(selected(&g), 2);
    g.select(99);
    assert_eq!(selected(&g), 3);
    g.row_clicked(1);
    assert_eq!(selected(&g), 1);
}

#[test]
fn jumps_report_what_they_cannot_read() {
    let mut g = gui();
    g.jump.input = "nonsense".to_string();
    g.jump_to_input(None);
    assert!(g.jump.error.is_some());
    assert!(!g.list.scroll_to_selected);
    g.set_time_format(TimeFormat::OffsetSecs);
    g.jump.input = "1.5".to_string();
    g.jump_to_input(Some(1_500_000));
    assert!(g.jump.error.is_none());
    assert_eq!(selected(&g), 2);
    assert!(g.list.scroll_to_selected);
}

#[test]
fn marking_opens_the_label_window() {
    let mut g = gui();
    g.row_clicked(2);
    g.navigate(NavKey::Mark, false);
    assert_eq!(g.label.prompt, Some(2));
    assert!(g.label.focus);
    g.label.input = "  spike ".to_string();
    g.save_label();
    assert!(g.label.prompt.is_none());
    let marks = &g.session.as_ref().unwrap().marks;
    assert_eq!(marks.get(&2).map(String::as_str), Some("spike"));

    g.open_label_editor(2);
    assert_eq!(g.label.input, "spike");
    g.cancel_label();
    // Unmarking discards the label.
    g.toggle_mark();
    assert!(g.session.as_ref().unwrap().marks.is_empty());
    assert!(g.label.prompt.is_none());

    g.act_on_mark(1, MarkAction::Add);
    assert_eq!(g.label.prompt, Some(1));
    g.act_on_mark(1, MarkAction::EditLabel);
    assert_eq!(g.label.input, "");
    g.act_on_mark(1, MarkAction::Remove);
    assert!(g.session.as_ref().unwrap().marks.is_empty());
}

#[test]
fn marks_in_the_side_pane_select_their_messages() {
    let mut g = gui();
    g.mark_clicked(3, false);
    assert_eq!(selected(&g), 3);
    assert!(!g.list.scroll_to_selected);
    g.mark_clicked(1, true);
    assert_eq!(selected(&g), 1);
    assert!(g.list.scroll_to_selected);
}

#[test]
fn escape_closes_one_window_at_a_time() {
    let mut g = gui();
    g.open_failed("bad".to_string());
    g.open_label_editor(0);
    g.show_help(true);
    g.show_settings(true);
    g.open_new_filter();
    g.show_columns(true);
    {
        let s = g.session.as_ref().unwrap();
        g.columns.open_add(s);
    }
    g.open_new_plot();

    g.end_frame(true, false);
    g.handle_escape();
    assert!(g.error.is_some()); // the text box was only released

    g.end_frame(false, false);
    g.handle_escape();
    assert!(g.error.is_none() && g.label.prompt.is_some());
    g.handle_escape();
    assert!(g.label.prompt.is_none() && g.windows.help_open);
    g.handle_escape();
    assert!(!g.windows.help_open && g.windows.settings_open);
    g.handle_escape();
    assert!(!g.windows.settings_open && g.filters.has_editor());
    g.handle_escape();
    assert!(!g.filters.has_editor() && g.columns.has_editor());
    g.handle_escape();
    assert!(!g.columns.has_editor() && g.windows.columns_open);
    g.handle_escape();
    assert!(!g.windows.columns_open && g.plots.has_editor());
    g.handle_escape();
    assert!(!g.plots.has_editor());
    g.handle_escape();
}

#[test]
fn tab_stays_inside_the_top_popup() {
    let mut g = gui();
    g.show_settings(true);
    g.windows.settings_focus = false;
    g.end_frame(false, false);
    g.keep_focus_in_popups(true);
    assert!(!g.windows.settings_focus); // not moved by Tab
    g.end_frame(false, true);
    g.keep_focus_in_popups(false);
    assert!(!g.windows.settings_focus); // still inside a popup
    g.keep_focus_in_popups(true);
    assert!(g.windows.settings_focus);
    g.show_columns(true);
    g.columns.focus_on_open = false;
    g.keep_focus_in_popups(true);
    assert!(g.columns.focus_on_open);
    g.open_new_plot();
    g.plots.editor_focus = false;
    g.keep_focus_in_popups(true);
    assert!(g.plots.editor_focus);
    g.open_new_filter();
    g.filters.focus_on_open = false;
    g.keep_focus_in_popups(true);
    assert!(g.filters.focus_on_open);
    g.open_label_editor(0);
    g.label.focus = false;
    g.keep_focus_in_popups(true);
    assert!(g.label.focus);
}

#[test]
fn letters_need_a_file_and_no_typing() {
    let g = gui();
    let none = GuiState::new(None, None);
    assert!(g.letter_fires(Command::Filter, false));
    assert!(!g.letter_fires(Command::Filter, true));
    assert!(!g.letter_fires(Command::Quit, false));
    assert!(!none.letter_fires(Command::Filter, false));
    assert!(none.letter_fires(Command::Open, false));
    assert!(none.letter_fires(Command::Help, false));
}

#[test]
fn commands_open_windows_or_hand_out_effects() {
    let mut g = gui();
    assert!(matches!(g.perform(Command::Open), Effect::PickFile));
    assert!(matches!(g.perform(Command::Save), Effect::SaveSetup));
    assert!(matches!(g.perform(Command::Jump), Effect::Nothing));
    assert!(g.jump.focus);
    g.perform(Command::Filter);
    assert!(g.filters.has_editor() && g.filters.focus_on_open);
    g.perform(Command::Columns);
    assert!(g.windows.columns_open && g.columns.focus_on_open);
    g.perform(Command::Columns);
    assert!(!g.windows.columns_open);
    g.perform(Command::Plot);
    assert!(g.plots.has_editor());
    g.perform(Command::Settings);
    assert!(g.windows.settings_open && g.windows.settings_focus);
    g.perform(Command::Help);
    assert!(g.windows.help_open);
    let mut none = GuiState::new(None, None);
    assert!(matches!(none.perform(Command::Save), Effect::Nothing));
    none.perform(Command::Filter);
    none.perform(Command::Plot);
    assert!(!none.filters.has_editor() && !none.plots.has_editor());
    none.perform(Command::Settings);
    none.perform(Command::Columns);
    none.close_without_file();
    assert!(!none.windows.settings_open && !none.windows.columns_open);
}

#[test]
fn unsaved_changes_are_guarded() {
    let mut g = gui();
    // Clean: no questions asked.
    assert!(matches!(g.request_open("b.tlog".to_string()), Effect::Open(p) if p == "b.tlog"));
    assert!(!g.close_requested());

    g.act_on_mark(1, MarkAction::Add);
    assert!(g.has_unsaved());
    assert!(matches!(g.request_open("b.tlog".to_string()), Effect::Nothing));
    assert!(!g.guard.takes_keys());
    assert_eq!(
        g.guard.prompt_text().unwrap(),
        "You have unsaved changes to the setup.\nSave before opening another file?"
    );
    assert!(matches!(g.answer(Answer::Cancel), Effect::Nothing));
    assert!(g.guard.takes_keys());

    // A save that did not land aborts the action.
    g.request_open("b.tlog".to_string());
    g.setup_written(Err("disk full".to_string()));
    assert!(matches!(g.answer(Answer::Save), Effect::Nothing));
    assert_eq!(
        g.status.as_deref(),
        Some("Failed to save a.tlog.mavlog.json: disk full")
    );
    assert!(g.has_unsaved());

    g.request_open("b.tlog".to_string());
    g.setup_written(Ok(()));
    assert_eq!(g.status.as_deref(), Some("Setup saved to a.tlog.mavlog.json"));
    assert!(matches!(g.answer(Answer::Save), Effect::Open(p) if p == "b.tlog"));

    // Closing the window raises the prompt, and discarding lets it through.
    g.act_on_mark(2, MarkAction::Add);
    assert!(g.close_requested());
    assert_eq!(
        g.guard.prompt_text().unwrap(),
        "You have unsaved changes to the setup.\nSave before quitting?"
    );
    assert!(matches!(g.answer(Answer::Discard), Effect::Close));
    assert!(!g.close_requested());
}

#[test]
fn quitting_asks_only_with_unsaved_changes() {
    let mut g = gui();
    g.act_on_mark(1, MarkAction::Add);
    assert!(matches!(g.perform(Command::Quit), Effect::Nothing));
    assert!(g.close_requested());
    g.answer(Answer::Cancel);
    g.act_on_mark(1, MarkAction::Remove);
    assert!(matches!(g.request_quit(), Effect::Close));
    assert!(!g.close_requested());
}

#[test]
fn opening_a_file_resets_what_belongs_to_the_old_one() {
    let mut g = gui();
    g.open_new_filter();
    g.open_new_plot();
    g.plots.set_shown(0, true);
    g.open_failed("bad".to_string());
    g.opened(session(), Some("Loaded".to_string()));
    assert!(!g.filters.has_editor() && !g.plots.has_editor());
    assert!(!g.plots.is_shown(0));
    assert!(g.error.is_none());
    assert!(g.list.scroll_to_selected);
    assert_eq!(g.status.as_deref(), Some("Loaded"));
    g.open_failed("bad".to_string());
    g.dismiss_error();
    assert!(g.error.is_none());
}

#[test]
fn side_blocks_show_and_collapse() {
    let mut g = gui();
    assert!(!g.shows_block(Block::Marks));
    assert!(!g.shows_block(Block::Plots));
    assert!(!g.shows_block(Block::Filters));
    g.act_on_mark(0, MarkAction::Add);
    assert!(g.shows_block(Block::Marks));
    let s = g.session.as_mut().unwrap();
    s.filters = parse_filters("GPS").ok().unwrap();
    s.plots.push(PlotDef { name: "p".to_string(), series: Vec::new(), show_marks: true });
    assert!(g.shows_block(Block::Plots));
    assert!(g.shows_block(Block::Filters));
    assert!(!g.is_collapsed(Block::Plots));
    g.toggle_block(Block::Plots);
    assert!(g.is_collapsed(Block::Plots) && !g.is_collapsed(Block::Filters));
    g.toggle_block(Block::Plots);
    g.toggle_block(Block::Marks);
    assert!(!g.is_collapsed(Block::Plots) && g.is_collapsed(Block::Marks));
    assert_eq!(rows::panel_header("Marks", true), "▶ Marks");
    assert_eq!(rows::panel_header("Marks", false), "▼ Marks");
}

#[test]
fn choices_stand_for_options() {
    let options = [(1, 1), (2, 1)];
    assert_eq!(choice_of_ids(&options, Some(2), Some(1)), 2);
    assert_eq!(choice_of_ids(&options, Some(2), None), 0);
    assert_eq!(choice_of_ids(&options, Some(9), Some(9)), 0);
    assert_eq!(ids_of_choice(&options, 1), (Some(1), Some(1)));
    assert_eq!(ids_of_choice(&options, 0), (None, None));
    let names = vec!["ATTITUDE".to_string(), "GPS".to_string()];
    assert_eq!(find_name(&names, "gps"), 1);
    assert_eq!(find_name(&names, "x"), 2);
    for source in [None, Some(LogSourceId::Primary), Some(LogSourceId::Secondary)] {
        assert_eq!(source_from_choice(source_choice(source)), source);
    }
    assert_eq!(source_from_choice(7), None);
    assert!(source_options(&session()).is_none());
}

#[test]
fn filter_editor_saves_what_was_chosen() {
    let mut s = session();
    let mut f = FiltersState::default();
    f.open_add(&s);
    assert!(f.focus_on_open);
    let editor = f.editor.as_mut().unwrap();
    editor.id_choice = 1;
    editor.type_choice = 2;
    f.save(&mut s);
    assert!(!f.has_editor());
    assert_eq!(s.filter_text, "1:1 =HEARTBEAT");
    assert_eq!(s.filtered, vec![0]);

    // Editing a disabled filter does not silently re-enable it.
    set_enabled(&mut s, 0, false);
    assert_eq!(s.filtered.len(), 4);
    assert_eq!(row_label(&s.filters[0]), "1:1 =HEARTBEAT");
    f.open_edit(&s, 0);
    assert_eq!(f.editor.as_ref().unwrap().type_choice, 2);
    f.editor.as_mut().unwrap().id_choice = 0;
    f.save(&mut s);
    assert_eq!(s.filter_text, "!=HEARTBEAT");

    f.open_edit(&s, 0);
    f.remove(&mut s, 0);
    assert!(!f.has_editor());
    assert!(s.filters.is_empty());
    assert_eq!(s.filter_text, "");
}

#[test]
fn column_editor_wants_a_field() {
    let mut s = session();
    let mut c = ColumnsState::default();
    c.open_add(&s);
    c.save(&mut s);
    assert_eq!(c.error.as_deref(), Some("Pick a message field before saving"));
    assert!(c.has_editor());
    let editor = c.editor.as_mut().unwrap();
    assert_eq!(editor.field_label(), "(pick a field)");
    editor.choose_type(2);
    editor.field = "airspeed".to_string();
    editor.choose_type(2);
    assert_eq!(editor.field_label(), "airspeed");
    editor.name = "  ".to_string();
    c.save(&mut s);
    assert!(c.error.is_none() && !c.has_editor());
    assert_eq!(s.columns_text, "airspeed = VFR_HUD.airspeed");
    assert_eq!(s.columns[0].matches, vec![3]);

    c.open_edit(&s, 0);
    let editor = c.editor.as_mut().unwrap();
    assert_eq!(editor.type_choice, 2);
    editor.choose_type(1);
    assert_eq!(editor.field, ""); // fields belong to a type
    c.cancel_editor();
    c.open_edit(&s, 0);
    c.remove(&mut s, 0);
    assert!(s.columns.is_empty() && !c.has_editor());
}

fn series(field: &str, name: Option<&str>) -> SeriesDef {
    SeriesDef {
        sysid: None,
        compid: None,
        msg_type: "VFR_HUD".to_string(),
        field: field.to_string(),
        name: name.map(str::to_string),
        unit: None,
    }
}

#[test]
fn plot_dialog_saves_and_shows_a_new_plot() {
    let mut s = session();
    let mut p = PlotsState::default();
    p.add_plot(&s);
    assert_eq!(p.editor.as_ref().unwrap().title(), "Add plot");
    assert!(p.save(&mut s).is_none());
    assert_eq!(p.error.as_deref(), Some("Every series needs a field before saving"));
    let editor = p.editor.as_mut().unwrap();
    editor.series[0].choose_type(2);
    editor.series[0].field = "alt".to_string();
    editor.series[0].unit = " m ".to_string();
    editor.add_series();
    editor.remove_series(1);
    assert_eq!(p.save(&mut s), Some(0));
    assert!(p.is_shown(0) && p.lacks_data(0) && !p.has_editor());
    assert_eq!(s.plots[0].name, "Plot");
    assert_eq!(s.plots[0].series[0].msg_type, "VFR_HUD");
    assert_eq!(s.plots[0].series[0].unit.as_deref(), Some("m"));
    assert!(s.plots[0].series[0].name.is_none());
    assert!(s.plots[0].show_marks);
    p.put_data(0, vec![series_data(&[])]);
    assert!(!p.lacks_data(0));

    // Editing drops the points of the plot as it was.
    p.open_edit(&s, 0);
    let editor = p.editor.as_mut().unwrap();
    assert_eq!(editor.title(), "Edit plot");
    assert_eq!(editor.series[0].field_label(), "alt");
    editor.name = " climb ".to_string();
    assert_eq!(p.save(&mut s), Some(0));
    assert_eq!(s.plots[0].name, "climb");
    assert!(p.lacks_data(0));
    p.close_window(0);
    assert!(!p.is_shown(0));
    p.open_edit(&s, 0);
    assert_eq!(p.save(&mut s), None); // hidden: nothing to extract
}

#[test]
fn removing_a_plot_moves_the_others_up() {
    let mut s = session();
    for name in ["a", "b", "c"] {
        s.plots.push(PlotDef { name: name.to_string(), series: Vec::new(), show_marks: true });
    }
    let mut p = PlotsState::default();
    p.set_shown(0, true);
    p.set_shown(2, true);
    p.put_data(2, vec![series_data(&[(5, Some(1.0f64.to_bits()))])]);
    p.open_edit(&s, 1);
    p.remove(&mut s, 1);
    assert!(!p.has_editor());
    assert_eq!(s.plots[1].name, "c");
    assert!(p.is_shown(0) && p.is_shown(1) && !p.is_shown(2));
    assert!(!p.lacks_data(1) && p.lacks_data(2));
    assert_eq!(p.cache.get(&1).unwrap()[0].points.len(), 1);
    p.set_shown(0, false);
    assert!(!p.is_shown(0));
    p.reset();
    assert!(!p.is_shown(1) && p.lacks_data(1));
}

#[test]
fn series_are_labelled_by_name_or_source() {
    assert_eq!(series_label(&series("alt", Some("height"))), "height");
    assert_eq!(series_label(&series("alt", Some(""))), "VFR_HUD.alt");
    let one = SeriesDef { sysid: Some(1), compid: Some(190), ..series("alt", None) };
    assert_eq!(series_label(&one), "1:190 VFR_HUD.alt");
    let half = SeriesDef { sysid: Some(1), ..series("alt", None) };
    assert_eq!(series_label(&half), "VFR_HUD.alt");
    assert_eq!(none_if_blank("  "), None);
    assert_eq!(none_if_blank(" m/s "), Some("m/s".to_string()));
}

#[test]
fn plots_draw_marks_only_when_asked() {
    let mut s = session();
    s.marks.insert(3, "late".to_string());
    s.marks.insert(1, String::new());
    let mut p = PlotDef { name: "p".to_string(), series: Vec::new(), show_marks: true };
    let lines = mark_lines(&s, &p);
    assert_eq!(lines.len(), 2);
    assert_eq!((lines[0].entry_index, lines[0].timestamp_us), (1, 2_000_000));
    assert_eq!(lines[1].label, "late");
    p.show_marks = false;
    assert!(mark_lines(&s, &p).is_empty());
}

#[test]
fn rows_show_marks_and_details() {
    let mut s = session();
    assert_eq!(rows::mark_cell(None), "");
    assert_eq!(rows::mark_cell(Some(&String::new())), "●");
    assert_eq!(rows::mark_cell(Some(&"x".to_string())), "● x");
    s.marks.insert(2, "spike".to_string());
    s.marks.insert(0, String::new());
    let list = rows::marks_list(&s);
    assert_eq!(list[0], (0, "● 1970-01-01 00:00:01.000  HEARTBEAT".to_string()));
    assert_eq!(list[1], (2, "● 1970-01-01 00:00:03.000  HEARTBEAT\n   spike".to_string()));
    assert_eq!(rows::detail_title(&s.entries[1]), "ATTITUDE (id 30)");
    assert_eq!(rows::detail_head("D", "O", None), "Time: D  (O)\n\n");
    assert_eq!(
        rows::detail_head("D", "O", Some(&String::new())),
        "Time: D  (O)\nMark: ●\n\n"
    );
    let body = rows::detail_body(&s, 2);
    match &body[0] {
        Piece::Text(t) => assert_eq!(
            t,
            "Time: 1970-01-01 00:00:03.000  (T+2.000s)\nMark: ● spike\n\n"
        ),
        _ => panic!("a text"),
    }
    assert!(body.len() > 1);
    assert_eq!(rows::hint("Ctrl+F", "f"), "Ctrl+F or f");
    assert_eq!(rows::jump_hint(TimeFormat::OffsetSecs), "T+4.5s");
}

#[test]
fn columns_survive_a_reload_of_the_setup() {
    let mut s = session();
    s.set_columns(parse_columns("b = HEARTBEAT.type").ok().unwrap());
    let setup = s.current_setup();
    let mut t = session();
    t.apply_setup(setup);
    assert_eq!(t.columns_text, "b = HEARTBEAT.type");
    assert_eq!(t.columns[0].matches, vec![0, 2]);
}

#[test]
fn message_rows_hold_what_the_list_shows() {
    let mut s = session();
    s.set_columns(parse_columns("v = VFR_HUD.nosuch").ok().unwrap());
    s.filters = parse_filters("1").ok().unwrap();
    s.apply_filter();
    s.marks.insert(3, "end".to_string());
    s.selected = 1;
    let first = rows::message_row(&s, 0);
    assert_eq!(first.entry_index, 0);
    assert_eq!(first.time, "1970-01-01 00:00:01.000");
    assert_eq!(first.ids, "1:1");
    assert_eq!(first.name, "HEARTBEAT");
    assert!(first.values[0].is_empty());
    assert_eq!(first.label, "");
    assert!(!first.selected && !first.marked);
    assert!(rows::message_row(&s, 1).selected);
    let last = rows::message_row(&s, 2);
    assert_eq!((last.entry_index, last.label.as_str()), (3, "● end"));
    assert!(last.marked);
    assert!(matches!(&last.values[0][..], [Piece::Text(t)] if t == "?"));
}

#[test]
fn saving_an_editor_unchanged_keeps_what_it_edits() {
    let mut s = session();
    s.set_columns(parse_columns("n = 2:1 heartbeat.type").ok().unwrap());
    let mut c = ColumnsState::default();
    c.open_edit(&s, 0);
    c.save(&mut s);
    assert_eq!(s.columns_text, "n = 2:1 HEARTBEAT.type");
    assert_eq!(s.columns[0].matches, vec![2]);

    s.filters = parse_filters("!1:1 =ATTITUDE").ok().unwrap();
    s.rebuild_filter_text();
    let mut f = FiltersState::default();
    f.open_edit(&s, 0);
    f.save(&mut s);
    assert_eq!(s.filter_text, "!1:1 =ATTITUDE");

    let def = PlotDef {
        name: "p".to_string(),
        series: vec![series("alt", Some("height")), series("climb", None)],
        show_marks: false,
    };
    s.plots.push(def.copied());
    let mut p = PlotsState::default();
    p.open_edit(&s, 0);
    p.save(&mut s);
    assert!(s.plots[0].same(&def));
}

#[test]
fn column_editor_refuses_what_could_not_be_loaded_again() {
    let mut s = session();
    let mut c = ColumnsState::default();
    for name in ["a,b", "a=b"] {
        c.open_add(&s);
        let editor = c.editor.as_mut().unwrap();
        editor.field = "type".to_string();
        editor.name = name.to_string();
        c.save(&mut s);
        assert_eq!(c.error.as_deref(), Some("A column name cannot contain ',' or '='"));
        assert!(c.has_editor() && s.columns.is_empty());
    }
    let editor = c.editor.as_mut().unwrap();
    editor.name = "a b.c".to_string();
    editor.field = "x y".to_string();
    c.save(&mut s);
    assert_eq!(c.error.as_deref(), Some("A column cannot name this message field"));
    c.editor.as_mut().unwrap().field = "x".to_string();
    c.save(&mut s);
    assert!(c.error.is_none() && !c.has_editor());

    let mut t = session();
    t.apply_setup(s.current_setup());
    assert_eq!(t.columns_text, "a b.c = ATTITUDE.x");
    assert_eq!(t.columns[0].name, "a b.c");
    assert!(!t.is_dirty());
}

#[test]
fn blank_units_are_not_shown() {
    let with_unit = |unit: Option<&str>| {
        let mut d = series("alt", None);
        d.unit = unit.map(str::to_string);
        unit_suffix(&d)
    };
    assert_eq!(with_unit(Some("m")), " m");
    assert_eq!(with_unit(Some("  ")), "");
    assert_eq!(with_unit(None), "");
}

#[test]
fn filter_editor_refuses_what_could_not_be_loaded_again() {
    let entries = vec![entry(1, 1, "A,B"), entry(2, 1, "C")];
    let mut s = Session::new("a.tlog".to_string(), Vec::new(), entries, None);
    let mut f = FiltersState::default();
    f.open_add(&s);
    f.editor.as_mut().unwrap().type_choice = 1;
    f.save(&mut s);
    assert_eq!(f.error.as_deref(), Some("A filter cannot name this message type"));
    assert!(f.has_editor() && s.filters.is_empty());
    f.editor.as_mut().unwrap().type_choice = 2;
    f.save(&mut s);
    assert!(f.error.is_none() && !f.has_editor());
    assert_eq!(s.filter_text, "=C");
    let mut t = session();
    t.apply_setup(s.current_setup());
    assert_eq!(t.filter_text, "=C");
}
