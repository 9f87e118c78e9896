# Pogoda

A terminal weather report (forecast, drone pilot profile and historical ranges from
Open-Meteo), with the decisions behind it verified by Verus.

## Layout

- `src/` — the verified library:
  - `text` — character helpers, decimal rendering;
  - `style` — the escape sequences of styled and colored text, monochrome mode, and
    what a terminal shows once the sequences are removed;
  - `types` — themes, unit systems, dates and the calendar's day numbering;
  - `geo`, `locale`, `cli` — the day-window argument, locale detection, flags, the
    positional request and the historical range;
  - `calendar` — date parsing, day counts and weekday names through `chrono`;
  - `weather` — grouping hourly records by day, sunrise/sunset fallbacks, monthly buckets;
  - `layout`, `rows` — table column fitting to the terminal width and the row plan;
  - `charts`, `bars` — sampling, eighth-block cells, axes and bar glyphs;
  - `banner`, `footer` — the logo and the footer text.
- `app/` — the program: HTTP, JSON, colors and every computation on floating-point
  values, terminal output and the translated messages.
- `tests/` — tests of the library on concrete values.
