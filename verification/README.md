# dotnet-api-index

Heuristic API endpoint indexing for .NET workspaces, verified with Verus.

- indexes ASP.NET controller endpoints from route and `Http*` attributes
- indexes minimal API calls like `MapGet`, `MapPost`, `MapPut`, `MapDelete`, `MapPatch`
- indexes OpenAPI documents, which take the place of what sources say
- emits Basalt's generic API-index JSON schema

`src/` is the library. It asks for files and takes replies (`index::IndexRun`),
so that what it does is a function of the replies; the contracts say which.
`app/` is the plugin: it runs the requests against the host and writes JSON.
