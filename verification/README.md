# google_pub_sub

Streams that arrive as messages on a Pub/Sub subscription, in Verus: the
requests a Location makes, what it makes of the responses, and a far end that
answers them in memory. One message is one Stream.

| Where | What |
|---|---|
| `src/lib.rs` | the transport: names, targets, what travels and what does not |
| `src/client.rs` | publish, pull, acknowledge: requests formed, responses read |
| `src/receiving.rs` | a receive, one exchange at a time |
| `src/session.rs` | the far end |
| `src/model.rs` | what the far end does, stated |
| `src/laws.rs` | what holds of both sides together |
| `src/json.rs`, `src/encoding.rs` | documents and base64, over `serde_json` and `base64` |
| `src/message.rs`, `src/failure.rs` | requests, responses, Streams, failures |
| `src/table.rs`, `src/text.rs` | an ordered map from text, and text itself |
| `app/` | the same on sockets, for the `http` and `transport` crates beside it |

The library holds no connection. Whoever does sends what `Client`,
`PubSubTransport::send` and `Receiving::request` form, and gives the response
to `published`, `pulled`, `acknowledged`, `sent` or `Receiving::take`. Where
the connection breaks during a receive, `Receiving::break_off` hands out the
Streams that were acknowledged before.
`endpoint::authority` of the `http` crate is an argument, as its result.
