# veric

Cross-module structural verification of aski programs, verified with Verus.

Given the modules of a program, the library indexes what each module
defines, exports and imports (`index`), checks the program in five tiers —
module linking, the type graph, trait structure, scopes (names, generic
parameters, visibility) and literals —
(`verify`, with the message texts in `messages`), and emits the program with
a resolution table (`emit`). `pipeline::verify_and_emit` runs the whole
check.

Every function states its result exactly over spec functions: `index_of` is
the index of a program, `verify_spec` the problems it has, `resolution_of`
its resolution table. `laws` and the files ending in `_laws` prove what these promise
together. Of a program in which verification finds no problem: it links
(and the module tier is clean exactly when the program links); every type
named by a field, a variant, a definition nested at any depth, a newtype, a
const, a trait declaration or implementation, or a foreign function
resolves, every self-typed field names a type in scope, and every trait
named is in scope; its trait implementations match their declarations; its
top-level names are unique, no nested type takes a top-level name, and no
top-level enum, struct or newtype, trait, implementation, signature or
method declares a generic parameter twice (nested definitions are not
checked for this); its private types stay out of exports, public structs'
fields and public traits' signatures; and its consts fit their types. The
cycle search reports a cycle exactly when the import graph has one, each
reported cycle follows import edges and passes no module twice, and none is
reported twice. The resolution table is determined by the program and
points at the definitions it names.

`app/` is the command-line tool: it reads the per-module `.rkyv` files,
runs the check and writes the program.
