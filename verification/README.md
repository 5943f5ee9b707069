# apt_transport_r2

An APT transport that downloads packages from an S3-compatible object store such
as Cloudflare R2. APT talks to it over standard input and output; URIs look like
`r2://bucket/pool/main/package.deb`.

The transport is configured in `apt.conf`:

```
Acquire::r2::AccessKeyId "...";
Acquire::r2::SecretAccessKey "...";
Acquire::r2::EndpointUrl "https://account.r2.cloudflarestorage.com";
Acquire::r2::Bucket "apt-private";
```

## Layout

- `src/` is the library, verified with Verus: messages, settings, object keys and
  the course of a session. The modules named `laws` or `.._laws`, `roundtrip` and
  `reread` state what holds of them together.
- `app/` is the program: it reads lines, writes messages, fetches objects and
  stores them.
- `tests/` runs the library on examples.
