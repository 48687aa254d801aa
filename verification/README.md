# tts_bot

A Discord bot that reads the messages of a text channel aloud in a voice
channel with VOICEVOX, and announces members who join or leave.

- `src/` is the verified library: message templates and their configuration
  strings (`messages`), the reading dictionaries, one per guild (`dictionary`), the channel and
  speaker tables (`cache`, `speaker`), the decisions taken on Discord events
  (`events`, `voices`, `tts`, `replies`), character-sequence utilities
  (`text`), and properties across operations (`laws`).
- `app/` is the bot program around it: Discord (poise, serenity, songbird),
  speech synthesis (vvcore), the voice cache (moka) and the data files.
- `tests/` exercises the library.
