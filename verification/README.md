# cicache

A caching HTTP(S) forward proxy for CI jobs, backed by the GitHub Actions cache service.

Start it at the top of a job and every later step's outbound traffic flows through it. Responses
that are safe to reuse are served from the cache when present and stored when not. Everything else
is forwarded.

## Layout

- `src/` is the library: what is cached and under which key, how entries, packs and manifests are
  laid out, what the proxy does with a request, how the cache service is talked to, what a job's
  environment gets and how it is cleaned up. It is written in Verus: what its functions do is stated
  in contracts, and all that it does itself is proved to meet them.
- `app/` is the program around it: arguments, files, sockets, TLS and HTTP.
- `tests/` runs the library.

The library decides and the program performs. An exchange with the cache service, for instance, is a
sequence of steps: `gha::GhaCache` says which call or transfer comes next, the program makes it, and
hands back what came of it.

## What is proved

Beside the contracts, proof functions whose names begin with `law_` state what holds of the library
as a whole. Some of them:

- A response is stored only if all the conditions on it and its request hold, and whenever they do
  (`policy::law_all_conditions_hold`).
- A hit is the miss that stored it again, in status, body and headers
  (`passage::law_a_hit_is_the_miss_again`).
- An entry reads back as it was written, and a damaged body is never served
  (`entry::law_entry_round_trip`, `entry::law_decoded_bodies_are_intact`).
- Objects below a threshold share a single entry, and larger ones stay separate
  (`store::law_small_objects_share_an_entry`).
- A server presents a leaf for its host that the run's CA issued and signed, valid for no longer than
  398 days (`ca::law_servers_present_a_leaf_of_the_ca`).
- The background run is started with the settings that were given
  (`settings::law_settings_reach_the_background_run`).
- The manifest lists what was read plus what was confirmed, and nothing that failed to upload
  (`store::law_the_manifest_is_what_was_read_plus_what_was_confirmed`), and a later job reads it back
  (`store::law_manifests_are_read_back`).
- Concurrent jobs do not drop each other's entries: a job takes over the newest manifest and the
  newest shared entry before it writes its own
  (`store::law_concurrent_jobs_keep_each_others_entries`,
  `store::law_concurrent_jobs_keep_each_others_objects`).
- The service is only asked for keys it is known to hold, and is left alone once it refuses calls
  (`store::law_only_known_keys_are_asked_for`, `gha::law_an_exhausted_service_is_left_alone`).
- A bypassed host is forwarded blind and never cached (`proxy::law_bypassed_hosts_are_left_alone`).
- A pack yields what it was given, up to where it was cut off (`pack::law_round_trip`,
  `pack::law_truncation`).

What is taken on trust is what the outside crates do. Each call into one stands in a small function
marked `external_body`, whose comment says what is assumed of it.
