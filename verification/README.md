# backend

The server of a trail-racing event: riders register and log in, line up
in a queue at the start, are called to the start by the device there, and
their start and finish times are recorded by the devices along the trail.

- `src/` is the verified library: roles carried by login tokens
  (`auth`), the rider queue (`que`), session and device tokens (`token`),
  and the password rules of registration and login (`password`).
- `app/` is the web service around it: routes, database queries, pages,
  cookies and login-token encoding.
- `tests/` exercises the library on concrete values.
