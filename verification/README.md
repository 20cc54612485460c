# swagger2openapi

Convert Swagger 2.0 (OpenAPI v2.0) API definitions to OpenAPI 3.0.x. The conversion
is verified by Verus, from the text of a document to the converted document. The
reading of files and streams is not.

Parameters become request bodies, `securityDefinitions` becomes
`components.securitySchemes`, `definitions` becomes `components.schemas`, and
`host`/`basePath`/`schemes` become `servers`. Non-compliant JSON Schema constructs
are repaired in place. External and internal `$ref` resolution is optional.

## Layout

- `src/`: the library. Documents are values of `JsonValue`, contracts speak of
  their model `Json`. The laws of the library stand in the modules whose names end
  in `laws`.
- `app/`: the entry points that read files and streams, and the conversion from and
  to `serde_json::Value`.
- `tests/`: the tests.

The JSON and YAML libraries are behind `src/serial.rs`, which says what is believed
of them.
