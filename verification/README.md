# Elevator control

Control of a group of elevators that share the hall calls of one building of four floors. Each
elevator runs this program. It talks to its hardware over TCP, tells the other elevators of hall
calls and of its own state, and works out by itself who serves which hall call.

- The obstruction lever holds an elevator only while its door is open. An obstruction that comes
  while the elevator is on its way waits, and holds the elevator once the door opens. A held
  elevator takes calls into its queue, but does not move.
- The stop button stops the elevator at once and clears its queue. Its hall calls go to the other
  elevators.

## Layout

`src/` is the control logic, verified with Verus. It does no input or output: each function takes
what has happened and returns the actions that follow, in order.

| module | what it holds |
| --- | --- |
| `control` | choosing the next call and the direction, serving a call, leaving a floor |
| `elevio::elev` | one elevator and its queue of calls |
| `elevio::cost` | the cost of a hall call, and the messages between elevators |
| `elevio::system` | the hall calls, the other elevators and the peers, as one elevator knows them |
| `elevio::fault_handler` | which elevators are alive, and the saved state |
| `network::p2p_connect` | on which stream each peer is reached |
| `events` | what follows from a button, a sensor or a message |
| `startup` | recovery, the way to the ground floor, ports and addresses |
| `laws` | what holds of the elevators as a whole |
| `action`, `table`, `text` | actions, ordered tables, numerals and fields |

`app/` is the program around it: threads, channels, sockets, files and the clock.

    [Elevator Hardware] <--TCP--> [Polling Threads] <--Channels--> [Main Control Loop]
