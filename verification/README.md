# build_tools

Verified building blocks of the Android build tools for aconfig flags and
SDK finalization, written in Verus.

- `src/` is the library; every function in it is verified against its
  contract:
  - aconfig storage files: `storage_file` (header layout, little-endian
    reads), `flag_value` and `flag_info` (serialization and parsing, with
    round-trip laws), `flag_value_query` and `flag_value_update` (reading
    and writing one flag's value in a file, with read-after-write laws),
    `storage_dump` (human-readable dumps);
  - aconfig code generation: `java_names` (Java method and property names),
    `java_codegen` (flag elements, namespace groups, rendering context,
    templates and output files), `beta_namespaces`, `flag_cache` (flags that
    made it to a release);
  - SDK finalization: `sdk_version`, `sdk_checks` (consistency of an API
    database), `platform_sdk` and `module_sdk` (what goes where when SDK
    artifacts are unpacked into an Android tree);
  - helpers: `text` (character sequences, decimal and hexadecimal text,
    the order of texts), `paths` (path joining), and the trusted bindings to
    `regex` (`regex_match`) and `zip` (`zip_archive`).
- `tests/` runs the library on concrete values.
- `app/` is the command-line front end that unpacks platform and module
  SDKs: it walks directories, reads and writes files, and leaves every
  decision to the library.
