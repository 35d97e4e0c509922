# schlep

A load generator. Its client sends requests at a steady rate, as HTTP requests or as
gRPC calls. Its server sleeps, fails and answers with random data as its parameters,
and those of a request, say. Both log a summary of their traffic every ten seconds.

- `src/` is the library, verified with Verus: the rules of the client and the server,
  and the summary of the traffic.
- `app/` is the program around it: arguments, connections, timers, configuration files
  and what is computed in floating point.
- `tests/` runs the library on concrete values.
