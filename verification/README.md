# chuhshell

The core of a personal desktop shell for Niri, verified with Verus, and the
command-line program around it.

## Layout

- `src/` — the verified library. Its public functions carry `requires` /
  `ensures` contracts over mathematical models (`Seq`, `Set`, `Map`, spec
  functions), and the public `law_*` proof functions state properties that
  span several calls:
  - `notification_center` — the bounded notification history behind
    `org.freedesktop.Notifications`: replacement, closing, actions, expiry
    and popup bookkeeping, each operation returning the signals and timer
    changes it calls for; `popup_layout` — stacking popups by height.
  - `notifications`, `services` — system notices (volume, brightness,
    layout, Wi-Fi, power, peripherals) and which observer readings call
    for one.
  - `fuzzy`, `launcher`, `apps` — search scores, the launcher's order and
    navigation, the desktop-entry catalog and the hidden-apps file.
  - `network` — the Wi-Fi menu's network list from NetworkManager
    readings, and connection requests.
  - `modules`, `panel`, `config`, `menu`, `niri` — panel readings and
    labels, settings, the menu's pages, compositor state.
  - `background` — recognizing background applications and their root
    processes.
  - `process`, `text`, `order` — command outcomes, text and number
    helpers, stable ordering.
- `tests/` — tests of the library on concrete values.
- `app/` — the program: argument handling, the health check, media
  commands, the system observers and the notification service. It reads
  files, runs commands and uses D-Bus, and hands what it reads to the
  library.

Verify with Verus; build and test with Cargo.
