# athroisma

*ἄθροισμα - Greek for "aggregate"*

A lightweight Linux system monitor that prints one JSON line per interval, with
its logic as a library verified with Verus.

## Layout

- `src/` is the verified library. It turns the texts of the kernel's files into
  samples, and two samples into what is shown between them.
  - `text`, `number`: words, lines, trimming and decimal numbers.
  - `request`, `session`: what is asked for, on the command line and on standard
    input.
  - `procfs`, `disk`, `gpu`, `fdinfo`, `walk`, `names`, `nvml`: what the files of
    each kind say.
  - `sample`: one sample of the machine.
  - `rank`, `rate`, `proclist`, `tree`, `diff`: orders, rates, process lists, the
    tree of disks, and the sections that are shown.
  - `laws`: what holds of the library as a whole. Laws on one module stand in it.
- `app/` is the program around it: it reads the files, asks the vendor's library
  about NVIDIA cards, computes percentages and prints.
- `tests/` runs the library.

## Usage

```
athroisma [interval_ms] [tokens...]
```

The tokens are `cpu`, `mem`, `gpu`, `net`, `disk`, `procs`, `nozero` and
`limit N`. A line of tokens on standard input replaces the request, and
`interval <ms>` changes the interval.

## Numbers

Counters and rates are unsigned numbers of 64 bits. Functions that compute with
what a file says require that the results fit; next to each stands one that tests
this (`sample_fits`, `diff_fits` and those for the single files). The program
passes over a tick whose numbers do not fit.

The library holds no floating point. Shares leave it as parts and wholes, and the
list by processor time is ordered by weights that the caller derives from them.
