# jump_list

The taskbar jump list of an editor: which workspaces it shows, the links behind them, and what is
read back of the links that the user has removed. The library is verified with Verus.

- `src/history_manager.rs`: the history of opened workspaces, and what the jump list is to show.
- `src/destination_list.rs`: the links of the jump list, and the entries behind removed links.
- `src/description.rs`: the entry that a link's description spells.
- `src/remote_url.rs`: the URLs of remote workspaces, written and read.
- `src/entry.rs`, `src/paths.rs`: entries, connections and paths.
- `src/url_parts.rs`: URLs as plain text, read and edited by the `url` crate.
- `src/text.rs`: lines, splits, joins and decimal numbers.

`app/` hands the links to the Windows shell and keeps one history for the application. The entries
of a jump list travel through the shell as the descriptions of their links: `format_link` states
for which entries the way back is exact.
