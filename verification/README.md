# am

`am` manages personal bash aliases in one dedicated file,
`~/.alias-management`, and keeps a small block in `~/.bash_profile` that loads
it.

```
┌─────────┬───────┬──────────────────────┐
│ type    ┆ alias ┆ action               │
╞═════════╪═══════╪══════════════════════╡
│ command ┆ gp    ┆ git pull             │
│ folder  ┆ p     ┆ cd ~/folder/personal │
│ ssh     ┆ srv   ┆ ssh forge@127.0.0.1  │
└─────────┴───────┴──────────────────────┘
```

```bash
am list [-c] [-f] [-s] [--search TEXT]
am new [-c [NAME [COMMAND]] | -f [NAME] | -s [NAME [USER [HOST]]]]
am delete [NAME] [--yes]
am install [DIR]
```

## Layout

The library under `src/` is verified with Verus; the program under `app/` does
the I/O around it.

| module | what it decides |
|---|---|
| `chars`, `text` | character classes, trimming, lines, search, order |
| `entry`, `error` | aliases and their kinds; why a request is refused |
| `line` | the grammar of an alias line, and the line that is written |
| `store` | the alias file: loading, adding, removing |
| `validate` | names, commands, ssh users and hosts |
| `paths` | `~`, input paths, the `cd` of a folder alias |
| `profile` | the shell-integration block and the first-run setup |
| `listing` | which aliases are shown, in what order, in which table |
| `create`, `dialog` | what a new alias still needs, what is asked, what each answer changes |
| `delete` | which alias is deleted, and that it is meant |
| `cli` | what a command line takes |
| `install` | where am is copied to, and the line that puts it on the `PATH` |

Proof functions whose names start with `law_` state what holds of several
functions together: what is written is read back, removing undoes adding, the
block is added once, a complete request asks nothing, and so on.

What is believed rather than proved stands next to where it is used, each with
its reason: `String::push` and `String::push_str`, `str::to_lowercase`, the
exchange of two elements of a slice, `shellexpand::tilde_with_context`, and the
methods of `comfy_table::Table` that build the table.
