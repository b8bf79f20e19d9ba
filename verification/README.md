# librrmj

A verified Japanese riichi mahjong engine: tiles, walls and deals, hand shapes and waits,
yaku, fu, dora and payments, and the state machine of a hand in progress (draws, discards,
calls, kans, riichi, wins and draws), with recordings that can be restored and replayed.

The library in `src/` is written in Verus. Every executable function carries a contract over
mathematical models (`Seq`, `Multiset`, `int`) and is proved against it:

- `tile`, `hand`, `wall`: tile identities and notation, concealed tiles and melds, the
  136-tile wall, its live/dead split and the deal.
- `rules::standard`: winning shapes, decompositions, waits, yaku and yakuman, fu, dora,
  payments, abortive draws and scored win paths.
- `state`: the hand state machine. `HandState::apply` routes each action by phase and seat;
  its contract states which actions succeed, what a refused action leaves behind, and that
  every move keeps the count of tiles in hands, rivers and the undrawn wall, but for a ron,
  which pops the won discard from its river (or takes the robbed kakan tile) and so ends the
  hand one tile short.
- The dead wall holds the dora indicators at positions 0, 2, 4, 6, 8, the ura-dora
  indicators under them, and the four rinshan tiles at positions 10 to 13.
- `scoring`, `rules::flow`, `rules::recommendations`: scoring results and their text,
  dealer rotation and the end of a match, ranking and formatting of win paths.

The only outside call made by the library is the wall shuffle (`rand`), behind one trusted
wrapper whose contract claims only that the shuffled wall holds the same tiles.

`tests/` exercises the library on concrete hands. `app/` holds serde forms of the library's
records (configs, scoring results, end reasons, wall snapshots), each converting to and from
the library type.
