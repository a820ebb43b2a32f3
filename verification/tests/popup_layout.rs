use chuhshell::popup_layout::{place_popups, PopupSlot};

fn popup(monitor: Option<&str>, height: i32) -> PopupSlot {
    PopupSlot {
        monitor: monitor.map(str::to_owned),
        height,
        available: 900,
    }
}

#[test]
fn popups_stack_upwards_by_height_and_close_when_they_do_not_fit() {
    let popups = vec![
        popup(Some("eDP-1"), 100),
        popup(Some("eDP-1"), 200),
        popup(Some("eDP-1"), 500),
        popup(Some("eDP-1"), 100),
        popup(Some("DP-2"), 300),
        popup(None, 100),
    ];
    assert_eq!(
        place_popups(&popups),
        vec![Some(140), Some(250), None, Some(460), Some(140), Some(140)]
    );
}

#[test]
fn a_popup_taller_than_its_monitor_is_closed() {
    let mut tall = popup(Some("eDP-1"), 800);
    tall.available = 600;
    assert_eq!(place_popups(&vec![tall]), vec![None]);
    assert_eq!(place_popups(&Vec::new()), Vec::<Option<i32>>::new());
}
