# shader_crusher

Takes a GLSL shader, removes whitespace and comments and gives identifiers
short names that compress well, without changing what the shader does. The
library is written in Verus: its functions carry `requires`/`ensures`
contracts that the verifier proves.

The pipeline (`shadercrusher::crush_with_symbols`):

1. `preprocess`: line endings to LF, comments out of directive lines;
2. `parser`: the GLSL grammar, on characters (`scan` holds the small
   recognisers it is built from), into the tree of `syntax`;
3. `protect`: what must keep its name (pragma regions, macros, blocks,
   `main`, the blocklist);
4. `simplify`: meaning-preserving rewrites;
5. `scope`: resolve every identifier into a symbol table, with the scope
   rules of GLSL; bound identifiers become placeholders;
6. `rename`: choose new names (frequency or bigram scoring) and write them
   back;
7. `printer`: print with minimal whitespace and parentheses, shortest float
   literals;
8. `selfcheck`: parse the output again and compare tree and binding.

`lexer` tokenizes the opaque text of macro bodies and `#if` conditions;
`builtins` holds the word lists of the language; `names`, `text`, `walk` and
`equality` are helpers.

`app/` is the command line program and the C interface around the library.
