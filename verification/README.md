# stripconf

A terminal editor for `~/.striprc`, the configuration of the `strip` status bar.

The library under `src/` holds the state of the editor, the notation of the file,
the keys and prompts, and the texts that are shown. Every function of it is
verified with Verus: reading and writing the file, each change of the state, and
each line on the screen are stated over sequences of characters and proved. What
is believed without proof is what `String::push` does, and what `fg`, `bold`,
`underline` and `reverse` of `crust::style` return.

| Modules | What they hold |
| --- | --- |
| `text`, `number`, `color`, `style` | characters, numerals, colour codes, terminal attributes |
| `segment`, `globals`, `config` | one segment, the settings, the whole file |
| `app`, `edit`, `keys` | the state, editing by prompts, the keys |
| `render`, `layout`, `replace` | the panes' texts, their places, replacing the file |
| `*_laws` | what reading gives back of writing, and what every step keeps |

`app/` is the program around it: it opens the terminal, reads and writes the file,
asks the questions and restarts the bar.
