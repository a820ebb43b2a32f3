use chuhshell::notification_center::{
    action_label, actions_of, button_label, limited, notification_view, offered_buttons,
    requested_timeout, Effect, History, ImageData, NotificationView,
};

#[test]
fn image_data_rejects_invalid_layouts() {
    assert!(ImageData::decode(2, 2, 3, false, 8, 3, &[0; 12]).is_none());
    assert!(ImageData::decode(2, 2, 6, false, 8, 3, &[0; 11]).is_none());
    assert!(ImageData::decode(1, 1, 4, true, 8, 4, &[0; 4]).is_some());
    assert!(ImageData::decode(i32::MAX, 2, 6, false, 8, 3, &[]).is_none());
}

#[test]
fn input_limits_preserve_utf8() {
    assert_eq!(limited("Привет", 3), "П");
    assert_eq!(limited("hello", 3), "hel");
}

fn view(summary: &str) -> NotificationView {
    notification_view(
        "App",
        "icon",
        None,
        summary,
        "body",
        &Vec::new(),
        None,
        false,
        false,
        None,
    )
}

#[test]
fn notify_assigns_fresh_ids_and_opens_popups() {
    let mut history = History::new(200);
    let mut effects = Vec::new();
    let first = history.notify(0, view("one"), -1, &mut effects);
    let second = history.notify(0, view("two"), 0, &mut effects);
    assert_eq!(first, 1);
    assert_eq!(second, 2);
    assert_eq!(history.len(), 2);
    assert_eq!(history.popups(), 2);
    assert!(effects.contains(&Effect::OpenPopup { id: 1 }));
    assert!(effects.contains(&Effect::StartTimer { id: 1, millis: 6000 }));
    assert!(!effects.contains(&Effect::StartTimer { id: 2, millis: 0 }));
}

#[test]
fn replacing_an_active_notification_keeps_its_id() {
    let mut history = History::new(200);
    let mut effects = Vec::new();
    let id = history.notify(0, view("one"), 0, &mut effects);
    let again = history.notify(id, view("updated"), 0, &mut effects);
    assert_eq!(again, id);
    assert_eq!(history.len(), 1);
    assert_eq!(history.entries()[0].view.summary, "updated");
}

#[test]
fn closing_keeps_entry_inactive_and_remove_deletes_it() {
    let mut history = History::new(200);
    let mut effects = Vec::new();
    let id = history.notify(0, view("one"), 0, &mut effects);
    effects.clear();
    assert!(history.close(id, 2, &mut effects));
    assert_eq!(history.len(), 1);
    assert!(!history.entries()[0].active);
    assert_eq!(effects.last(), Some(&Effect::Closed { id, reason: 2 }));
    assert!(!history.close(id, 2, &mut effects));
    history.remove(id, &mut effects);
    assert_eq!(history.len(), 0);
    assert_eq!(history.index_of(id), None);
}

#[test]
fn history_stays_within_its_limit() {
    let mut history = History::new(10);
    let mut effects = Vec::new();
    for n in 0..25 {
        history.notify(0, view(&format!("n{n}")), 0, &mut effects);
    }
    assert!(history.len() <= 10);
    assert!(history.popups() <= 4);
    history.clear(&mut effects);
    assert_eq!(history.len(), 0);
}

#[test]
fn actions_are_paired_and_urgent_notifications_do_not_expire() {
    let raw = vec![
        "default".to_owned(),
        "Open".to_owned(),
        "dismiss".to_owned(),
        "Dismiss".to_owned(),
        "odd".to_owned(),
    ];
    let pairs = actions_of(&raw);
    assert_eq!(
        pairs,
        vec![
            ("default".to_owned(), "Open".to_owned()),
            ("dismiss".to_owned(), "Dismiss".to_owned())
        ]
    );
    assert_eq!(requested_timeout(2, 5000), 0);
    assert_eq!(requested_timeout(1, 5000), 5000);
    assert_eq!(button_label(0), "󰂚");
    assert_eq!(button_label(3), "󰂚 3");
}

#[test]
fn unlabelled_default_action_reads_open() {
    assert_eq!(action_label("default", ""), "Open");
    assert_eq!(action_label("default", "Reply"), "Reply");
    assert_eq!(action_label("other", ""), "");
}

#[test]
fn expired_notifications_offer_only_their_application() {
    let raw = vec!["default".to_owned(), "".to_owned()];
    let with_actions = notification_view(
        "App", "", None, "Hi", "", &raw, Some("org.example.App"), false, false, None,
    );
    assert_eq!(offered_buttons(&with_actions, true), (true, false));
    assert_eq!(offered_buttons(&with_actions, false), (false, true));
    assert_eq!(offered_buttons(&view("plain"), true), (false, false));
    assert_eq!(offered_buttons(&view("plain"), false), (false, false));
}

#[test]
fn large_images_are_scaled_to_64_pixels() {
    let image = ImageData::decode(128, 64, 384, false, 8, 3, &vec![7; 128 * 64 * 3]).unwrap();
    assert_eq!((image.width, image.height, image.stride), (64, 32, 192));
    assert_eq!(image.bytes.len(), 64 * 32 * 3);
    assert!(image.bytes.iter().all(|b| *b == 7));
    let tall = ImageData::decode(1, 4096, 4, true, 8, 4, &vec![0; 4096 * 4]).unwrap();
    assert_eq!((tall.width, tall.height), (1, 64));
}
