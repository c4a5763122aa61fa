# botofgreed

The Bot of Greed is a Discord bot that reposts random memes from an index of
meme channels. This crate verifies its decision logic with Verus.

- `src/` is the verified library: the meme index (`index`), how a refresh
  plans and counts (`refresh`) and how one channel is paged through
  (`indexer`), which messages are memes (`meme`), the sauce button ids and
  links (`op`), command routing and answer texts (`command`), the emoji that
  `/greed` reacts with (`emoji`), the configuration (`config`), and the text
  and number helpers they share (`text`, `decimal`).
- `app/` is the program around it: Discord, the index file, the environment
  and logging.
- `tests/` runs the library on concrete values.
