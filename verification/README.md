# ahoy_kcc

A kinematic character controller, verified with Verus. A character walks, climbs steps, jumps,
kicks and bounces off walls, swims, slides, crouches, and climbs onto ledges and down from them.

## Layout

- `src/` is the verified library. It touches neither a physics engine nor an entity store: whatever
  a step has to know of its surroundings it asks of a `World`.
- `app/` offers the library as Bevy plugins. It implements `World` on Avian's shape casts, and
  copies components in and out.
- `tests/` runs the library: its arithmetic against the machine's, its movement against scripted
  surroundings.

## The library

| Modules | What they hold |
| --- | --- |
| `rounding`, `ieee`, `scalar`, `vector` | single-precision arithmetic in integers, proved to round exactly |
| `clock`, `config`, `context` | durations and stopwatches, the tuning, and what a character is made of |
| `world` | what a step can ask, and the ghost record of what it asked |
| `casting`, `motion`, `ground` | casts and slides, acceleration and friction, the ground and how it carries |
| `locomotion`, `stance`, `jump`, `ledge`, `climb` | the ways to move |
| `step`, `stepper`, `collider` | whole steps, many characters, and the shapes of a character |
| `order`, `number_laws`, `amounts` | what is proved of the arithmetic |
| `keeps`, `grip`, `replay` | what parts of a step leave alone, and that the same replies give the same step |
| `laws`, `motion_laws`, `length_laws`, `bounce_laws`, `reach_laws`, `mantle_laws`, `frame_laws`, `step_laws` | what is proved to hold of movement |

## How contracts are stated

The outcome of a step depends on the replies of its surroundings, of which nothing is assumed. So
each function that asks anything has a model: a specification function from a history of questions
and replies, the character and its body to what they become. A contract says that the function
asked exactly what its model asks, in that order, and ended exactly where the model ends on the
replies that came. The laws then speak of the models, on every history.

Numbers are bit patterns. Their arithmetic is specified as the exact result rounded to nearest, ties
to even, so that contracts speak of the very numbers that come out, overflow and NaN included.

A `Session` keeps the record. It holds the surroundings that it was made for and asks nobody else,
and every reply in its record is one that those surroundings gave (`Session::faithful`).

The laws are public proof functions. Those that speak of lengths, such as that a validated velocity
is no longer than the highest speed, speak of the real amounts that numbers stand for (`amounts`),
and say how much rounding may add.
