# tech_radar

A technology news radar. It reads RSS and Atom feeds and Hacker News, keeps the articles it
has not processed before, has an analysis service rank them per category, and delivers the
result as a Discord digest.

- `src/` is the library, written in Verus: every function states its result exactly over the
  character sequences of its inputs, and the laws of the digest (no URL shown under two
  categories, certifications only on Mondays, small categories skipped), of a run (at most 30
  new articles, URLs recorded only after delivery, every run ends) and of the processed-URL
  record (what is written reads back) are proved.
  - `text`: trimming, searching, replacing, splitting and joining character sequences.
  - `feed`: scanning RSS items and Atom entries, the feed list, Hacker News stories.
  - `analysis`: the prompt for the analysis service and the reading of its reply.
  - `digest`: the Markdown of each category and the Discord embeds.
  - `session`: the selection of new articles, the processed-URL record, and the steps of a run.
- `app/` is the program: environment, files, HTTP, the clock, and the loop that performs the
  steps the library decides.
  With `DRY_RUN=true` a run has the new articles analysed and reports its counts, but sends
  nothing to Discord and records no URL.
- `tests/` runs the library on concrete inputs.
