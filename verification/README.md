# wargamezr

The verified core of a terminal front-end for a self-hosted, Bandit-style
Linux wargame, with the front-end itself around it.

- `src/` — the library, proved with Verus:
  - `text` — strings from characters, decimal numbers, `trim`, `replace`,
    `strip_prefix`, each against a spec of what it computes;
  - `config` — campaign identity and world coordinates with their defaults,
    the theme (palette colours read from hex, frame style, chrome labels);
  - `model` — levels and their stable ordering by number;
  - `save` — progress: solved levels, treasure, revealed hints, and which
    levels are unlocked;
  - `world` — the world's users, password files and the shell commands
    that open a level;
  - `ui` — the glitch effect, list movement, key bindings (F1 and Ctrl-G
    among them), labels, status lines and what the detail panel shows;
  - `session` — the interactive state and how keys and world answers change
    it;
  - `doctor` — the headless check: which levels it probes, how it reads the
    answers, its lines and its count.
- `app/` — the program: reading campaign and save files, the `docker` CLI,
  the terminal UI and the PTY terminal.
- `tests/` — tests of the library on concrete values.
