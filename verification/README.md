# tga-report

Writes one self-contained HTML report from the statistics of a Telegram
export: the timeline, the daily rhythm, the people and the member list, who
answers whom, who has gone quiet, what was said, the topics, the records and
the notes on how to read it all.

## Layout

- `src/` is the verified library. Every section's words, counts, tables and
  orderings are written here with contracts: escaping and number formats
  (`text`), the shading scale (`scale`), ranking (`rank`), the member list
  (`members`), the reply matrix (`matrix`), the event cards and coverage
  (`timeline`), the between-people section (`between`), the conversation
  section (`conversation`), and the page around
  them (`report`). Laws about them are public proof functions named `law_*`.
- `app/` draws the charts, whose marks sit at fractional coordinates, formats
  the few figures that are floats, reads the statistics dump and the assets
  from disk, and puts the sections together.
- `tests/` exercises the library on concrete values.
