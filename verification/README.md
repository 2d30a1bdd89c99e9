# quic_proxy

An HTTP proxy, and a passthrough to a remote proxy over TCP or QUIC.

The library under `src/` holds what the proxy decides, verified with Verus:

- `stream_handler::http_proxy`: reading a request head line by line
  (`RequestHeadParser`), the proxy credentials (`AuthConfig`, `authenticate`,
  `decode_credentials`), and what the proxy does with a request
  (`HttpProxy::plan`: answer 407, tunnel a `CONNECT`, or forward with the
  request line and headers rewritten by `serialize_headers`). The laws at the
  end of the file state that the forwarded head keeps the client's header
  lines, `Proxy-Authorization` left out.
- `transport`: the transport a server listens with and the target of a
  passthrough URL; `transport::tcp::TcpClient`; `transport::quic`: the
  certificates and private key of the QUIC server, read from PEM.
- `stream_handler::passthrough`: the passthrough handler's state.
- `text`: string splitting, comparison and decimal notation.
- `codec`, `url_parts`, and the PEM readers in `transport::quic`: the calls
  into `base64`, `String::from_utf8`, `url` and `rustls-pemfile`, with the
  contracts they are trusted to meet.

`app/` is the program around it: argument parsing, the TCP and QUIC servers and
clients, and the async reading, writing and relaying of streams.
