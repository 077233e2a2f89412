# winisland

The host side of the island's plugin system, verified with Verus.

- `src/plugin/cstr.rs`: NUL-terminated UTF-8 text in fixed-size byte buffers.
- `src/plugin/types.rs`: plugin metadata, content, colours and errors; the C ABI
  records exchanged with plugin libraries and their conversion into host values;
  the `Plugin`, `ContentProvider` and `ShortcutProvider` traits.
- `src/plugin/manager.rs`: the registry of loaded plugins (`PluginManager`).
- `app/`: the unverified host side: `#[repr(C)]` layouts of the ABI records,
  the floating-point animation settings, the plugin directory and its scan.
- `tests/`: tests of the library.
